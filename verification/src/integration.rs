//! The bookkeeping between the discovery behaviour and Neptune's peer
//! management: the events sent to the main loop, the commands it sends, and
//! the status kept for each known peer.
use vstd::prelude::*;
use vstd::utf8::{decode_utf8, encode_utf8, valid_utf8};
use crate::address::{Multiaddr, PeerId, ProtocolView};
use crate::behaviour::{
    addrs_view, permanent_view, reported_addresses, request_view, DiscoveryBehaviour,
    DiscoveryOut, DiscoveryState, KademliaRequest, KademliaRequestView,
};
use crate::config::{
    kademlia_protocol_text, ConfigState, DiscoveryConfig, DEFAULT_KADEMLIA_REPLICATION_FACTOR,
};
use crate::keyed_map::KeyedMap;
use crate::network::{discovers_peers, Network};
use std::time::Duration;

verus! {

/// The number of failed connection attempts after which a peer counts as
/// unreachable.
pub const MAX_CONNECTION_ATTEMPTS: u32 = 3;

/// The text that `String::from_utf8_lossy` makes of a byte string.
pub uninterp spec fn utf8_lossy(bytes: Seq<u8>) -> Seq<char>;

/// `String::from_utf8_lossy`, made an owned string: the text of the bytes,
/// which std documents to be the decoded text itself where the bytes are
/// valid UTF-8. What it makes of invalid bytes (each invalid sequence
/// replaced by U+FFFD) is named, not stated.
#[verifier::external_body]
fn lossy_utf8(bytes: &Vec<u8>) -> (text: String)
    ensures
        text@ == utf8_lossy(bytes@),
        valid_utf8(bytes@) ==> text@ == decode_utf8(bytes@),
{
    String::from_utf8_lossy(bytes).into_owned()
}

/// The text that a record key reads as: the decoded text where the key is
/// valid UTF-8, and the lossy text otherwise.
pub open spec fn key_text(bytes: Seq<u8>) -> Seq<char> {
    if valid_utf8(bytes) {
        decode_utf8(bytes)
    } else {
        utf8_lossy(bytes)
    }
}

/// A record key that is the UTF-8 encoding of a string reads back as that
/// string.
pub proof fn lemma_key_text_round_trip(key: Seq<char>)
    ensures
        decode_utf8(encode_utf8(key)) == key,
        valid_utf8(encode_utf8(key)),
{
    vstd::utf8::encode_utf8_valid_utf8(key);
    vstd::utf8::encode_utf8_decode_utf8(key);
}

/// Events sent from the discovery system to the main loop.
#[derive(Debug, Clone)]
pub enum DiscoveryEvent {
    /// A new peer has been discovered.
    PeerDiscovered { peer_id: PeerId, addresses: Vec<Multiaddr> },
    /// A peer has become unreachable.
    PeerUnreachable { peer_id: PeerId },
    /// DHT value retrieved.
    ValueRetrieved { key: String, value: Vec<u8> },
    /// DHT value storage completed.
    ValueStored { key: String },
}

/// The mathematical value of a [`DiscoveryEvent`].
pub enum DiscoveryEventView {
    PeerDiscovered { peer_id: Seq<u8>, addresses: Seq<Seq<ProtocolView>> },
    PeerUnreachable { peer_id: Seq<u8> },
    ValueRetrieved { key: Seq<char>, value: Seq<u8> },
    ValueStored { key: Seq<char> },
}

impl View for DiscoveryEvent {
    type V = DiscoveryEventView;

    open spec fn view(&self) -> DiscoveryEventView {
        match self {
            DiscoveryEvent::PeerDiscovered { peer_id, addresses } =>
                DiscoveryEventView::PeerDiscovered {
                    peer_id: peer_id@,
                    addresses: addrs_view(addresses@),
                },
            DiscoveryEvent::PeerUnreachable { peer_id } => DiscoveryEventView::PeerUnreachable {
                peer_id: peer_id@,
            },
            DiscoveryEvent::ValueRetrieved { key, value } => DiscoveryEventView::ValueRetrieved {
                key: key@,
                value: value@,
            },
            DiscoveryEvent::ValueStored { key } => DiscoveryEventView::ValueStored { key: key@ },
        }
    }
}

/// The view of an optional event.
pub open spec fn event_view(event: Option<DiscoveryEvent>) -> Option<DiscoveryEventView> {
    match event {
        Some(e) => Some(e@),
        None => None,
    }
}

/// Commands sent from the main loop to the discovery system.
#[derive(Debug)]
pub enum DiscoveryCommand {
    /// Add a known peer address.
    AddKnownPeer { peer_id: PeerId, addr: Multiaddr },
    /// Start bootstrapping the DHT.
    Bootstrap,
    /// Store a value in the DHT.
    StoreValue { key: String, value: Vec<u8> },
    /// Retrieve a value from the DHT.
    GetValue { key: String },
    /// Update connection count.
    UpdateConnectionCount { count: u64 },
}

/// What is known of a peer's connection.
pub struct PeerConnectionStatus {
    /// The addresses known for the peer.
    pub addresses: Vec<Multiaddr>,
    /// When the peer was last seen, in milliseconds of the caller's clock.
    pub last_seen_ms: u64,
    /// Failed connection attempts since the last connection.
    pub connection_attempts: u32,
}

/// The mathematical value of a [`PeerConnectionStatus`].
pub struct PeerStatusView {
    pub addresses: Seq<Seq<ProtocolView>>,
    pub last_seen_ms: u64,
    pub connection_attempts: u32,
}

impl View for PeerConnectionStatus {
    type V = PeerStatusView;

    open spec fn view(&self) -> PeerStatusView {
        PeerStatusView {
            addresses: addrs_view(self.addresses@),
            last_seen_ms: self.last_seen_ms,
            connection_attempts: self.connection_attempts,
        }
    }
}

/// The status of a peer first met at `now_ms` with some addresses.
pub open spec fn fresh_status(addresses: Seq<Seq<ProtocolView>>, now_ms: u64) -> PeerStatusView {
    PeerStatusView { addresses, last_seen_ms: now_ms, connection_attempts: 0 }
}

/// A peer's status after it was seen at `now_ms`, connected or not.
pub open spec fn status_after_update(s: PeerStatusView, connected: bool, now_ms: u64) -> PeerStatusView {
    PeerStatusView {
        last_seen_ms: now_ms,
        connection_attempts: if connected {
            0
        } else {
            s.connection_attempts
        },
        ..s
    }
}

/// A peer's status after a failed connection attempt.
pub open spec fn status_after_failure(s: PeerStatusView) -> PeerStatusView {
    PeerStatusView { connection_attempts: (s.connection_attempts + 1) as u32, ..s }
}

/// Whether a peer with this status counts as unreachable.
pub open spec fn counts_as_unreachable(s: PeerStatusView) -> bool {
    s.connection_attempts > MAX_CONNECTION_ATTEMPTS
}

/// A connection forgives all earlier failures: the failure after it does
/// not make the peer unreachable. Once a peer counts as unreachable, every
/// further failure keeps it so; a peer counts as unreachable from its fourth
/// failure since its last connection on.
pub proof fn lemma_failures_and_reconnection(s: PeerStatusView, now_ms: u64, n: u32)
    requires
        s.connection_attempts < u32::MAX,
    ensures
        !counts_as_unreachable(status_after_failure(status_after_update(s, true, now_ms))),
        counts_as_unreachable(s) ==> counts_as_unreachable(status_after_failure(s)),
        counts_as_unreachable(status_after_failure(s)) <==> s.connection_attempts
            >= MAX_CONNECTION_ATTEMPTS,
{
}

/// After a connection, a peer's failed attempts start again from none: its
/// first three failures do not make it unreachable, and its fourth does.
pub proof fn lemma_reconnection_resets_failures(s: PeerStatusView, now_ms: u64)
    ensures
        status_after_update(s, true, now_ms).connection_attempts == 0,
        status_after_update(s, true, now_ms).last_seen_ms == now_ms,
        ({
            let s0 = status_after_update(s, true, now_ms);
            let s1 = status_after_failure(s0);
            let s2 = status_after_failure(s1);
            let s3 = status_after_failure(s2);
            let s4 = status_after_failure(s3);
            &&& s1.connection_attempts == 1
            &&& !counts_as_unreachable(s1)
            &&& !counts_as_unreachable(s2)
            &&& !counts_as_unreachable(s3)
            &&& counts_as_unreachable(s4)
        }),
{
}

/// A discovered peer is announced to the main loop with every address the
/// behaviour reports for it: when private addresses are allowed, all its
/// permanent addresses followed by all the addresses it was seen at.
pub proof fn lemma_discovered_peer_event(behaviour: DiscoveryState, peer: PeerId)
    ensures
        main_loop_event(behaviour, DiscoveryOut::Discovered(peer)) == Some(
            DiscoveryEventView::PeerDiscovered {
                peer_id: peer@,
                addresses: reported_addresses(behaviour, peer@),
            },
        ),
        behaviour.allow_private_ip ==> reported_addresses(behaviour, peer@) == crate::behaviour::permanent_for(
            behaviour.permanent_addresses,
            peer@,
        ) + crate::behaviour::addresses_for(behaviour.ephemeral_addresses, peer@),
{
}

/// The known peers that a list of bootstrap peers gives: a later entry for a
/// peer replaces an earlier one.
pub open spec fn bootstrap_peers_map(
    peers: Seq<(Seq<u8>, Seq<ProtocolView>)>,
    now_ms: u64,
) -> Map<Seq<u8>, PeerStatusView>
    decreases peers.len(),
{
    if peers.len() == 0 {
        Map::empty()
    } else {
        bootstrap_peers_map(peers.drop_last(), now_ms).insert(
            peers.last().0,
            fresh_status(seq![peers.last().1], now_ms),
        )
    }
}

/// The event for the main loop that a discovery event gives.
pub open spec fn main_loop_event(
    behaviour: DiscoveryState,
    event: DiscoveryOut,
) -> Option<DiscoveryEventView> {
    match event {
        DiscoveryOut::Discovered(peer) => Some(
            DiscoveryEventView::PeerDiscovered {
                peer_id: peer@,
                addresses: reported_addresses(behaviour, peer@),
            },
        ),
        DiscoveryOut::UnroutablePeer(peer) => Some(
            DiscoveryEventView::PeerUnreachable { peer_id: peer@ },
        ),
        DiscoveryOut::ValueFound { key, value, .. } => Some(
            DiscoveryEventView::ValueRetrieved { key: key_text(key@), value: value@ },
        ),
        DiscoveryOut::ValuePut(key, _) => Some(
            DiscoveryEventView::ValueStored { key: key_text(key@) },
        ),
        _ => None,
    }
}

/// A value stored or retrieved under the UTF-8 bytes of a key string
/// reaches the main loop under that same string; an unroutable peer is
/// reported unreachable; other events, but for a discovered peer, give no
/// message.
pub proof fn lemma_main_loop_events(
    behaviour: DiscoveryState,
    key: Vec<u8>,
    text: Seq<char>,
    value: Vec<u8>,
    duration: Duration,
    peer: PeerId,
)
    requires
        key@ == encode_utf8(text),
    ensures
        main_loop_event(behaviour, DiscoveryOut::ValuePut(key, duration)) == Some(
            DiscoveryEventView::ValueStored { key: text },
        ),
        main_loop_event(behaviour, DiscoveryOut::ValueFound { key, value, duration }) == Some(
            DiscoveryEventView::ValueRetrieved { key: text, value: value@ },
        ),
        main_loop_event(behaviour, DiscoveryOut::UnroutablePeer(peer)) == Some(
            DiscoveryEventView::PeerUnreachable { peer_id: peer@ },
        ),
        main_loop_event(behaviour, DiscoveryOut::RandomKademliaStarted) is None,
        main_loop_event(behaviour, DiscoveryOut::ValueNotFound { key, duration }) is None,
{
    lemma_key_text_round_trip(text);
}

/// The number of active connections at which the discovery manager pauses
/// discovery.
pub const DISCOVERY_MANAGER_CONNECTION_LIMIT: u64 = 50;

/// The configuration the discovery manager runs with: the bootstrap peers as
/// permanent addresses, Kademlia for the network, mDNS where the network
/// discovers peers, and discovery paused at the manager's connection limit;
/// every other setting is the default.
pub fn discovery_manager_config(
    local_peer_id: PeerId,
    network: Network,
    bootstrap_peers: Vec<(PeerId, Multiaddr)>,
) -> (config: DiscoveryConfig)
    ensures
        config@ == (ConfigState {
            local_peer_id: local_peer_id@,
            permanent_addresses: permanent_view(bootstrap_peers@),
            dht_random_walk: true,
            allow_private_ip: true,
            allow_non_globals_in_dht: false,
            discovery_only_if_under_num: DISCOVERY_MANAGER_CONNECTION_LIMIT,
            enable_mdns: discovers_peers(network),
            kademlia_disjoint_query_paths: false,
            kademlia_protocol: Some(kademlia_protocol_text(network)),
            kademlia_replication_factor: DEFAULT_KADEMLIA_REPLICATION_FACTOR,
            network,
        }),
{
    let ghost perm = permanent_view(bootstrap_peers@);
    let mut config = DiscoveryConfig::new(local_peer_id, network);
    config.with_permanent_addresses(bootstrap_peers).with_kademlia().with_mdns(
        network.performs_peer_discovery(),
    ).discovery_limit(DISCOVERY_MANAGER_CONNECTION_LIMIT);
    assert(Seq::<(Seq<u8>, Seq<ProtocolView>)>::empty() + perm =~= perm);
    config
}

/// The peers the discovery manager knows, with their connection status.
pub struct KnownPeers {
    peers: KeyedMap<PeerId, PeerConnectionStatus>,
}

/// The mathematical value of a map of peer statuses.
pub open spec fn statuses_view(m: Map<Seq<u8>, PeerConnectionStatus>) -> Map<Seq<u8>, PeerStatusView> {
    m.map_values(|s: PeerConnectionStatus| s@)
}

impl View for KnownPeers {
    type V = Map<Seq<u8>, PeerStatusView>;

    closed spec fn view(&self) -> Map<Seq<u8>, PeerStatusView> {
        statuses_view(self.peers.map())
    }
}

/// Copies a list of addresses.
fn copy_addresses(list: &Vec<Multiaddr>) -> (copy: Vec<Multiaddr>)
    ensures
        addrs_view(copy@) == addrs_view(list@),
{
    let mut copy: Vec<Multiaddr> = Vec::new();
    let mut i: usize = 0;
    while i < list.len()
        invariant
            i <= list.len(),
            addrs_view(copy@) == addrs_view(list@).take(i as int),
        decreases list.len() - i,
    {
        let ghost before = copy@;
        copy.push(list[i].clone());
        assert(addrs_view(copy@) =~= addrs_view(before).push(list@[i as int]@));
        assert(addrs_view(list@).take(i + 1) =~= addrs_view(list@).take(i as int).push(
            list@[i as int]@,
        ));
        i = i + 1;
    }
    assert(addrs_view(list@).take(i as int) =~= addrs_view(list@));
    copy
}

impl KnownPeers {
    /// The map is well formed.
    pub closed spec fn wf(&self) -> bool {
        self.peers.wf()
    }

    fn put(&mut self, peer_id: PeerId, status: PeerConnectionStatus)
        requires
            old(self).wf(),
        ensures
            final(self).wf(),
            final(self)@ == old(self)@.insert(peer_id@, status@),
    {
        let ghost k = peer_id@;
        let ghost v = status@;
        self.peers.insert(peer_id, status);
        assert(self@ =~= old(self)@.insert(k, v));
    }

    fn take(&mut self, peer_id: &PeerId) -> (status: Option<PeerConnectionStatus>)
        requires
            old(self).wf(),
        ensures
            final(self).wf(),
            final(self)@ == old(self)@.remove(peer_id@),
            match status {
                Some(s) => old(self)@.contains_key(peer_id@) && s@ == old(self)@[peer_id@],
                None => !old(self)@.contains_key(peer_id@),
            },
    {
        let status = self.peers.remove(peer_id);
        assert(self@ =~= old(self)@.remove(peer_id@));
        status
    }

    /// The known peers of a fresh discovery manager: the bootstrap peers, each
    /// with its address, met at `now_ms`.
    pub fn from_bootstrap(bootstrap_peers: Vec<(PeerId, Multiaddr)>, now_ms: u64) -> (known: Self)
        ensures
            known.wf(),
            known@ == bootstrap_peers_map(permanent_view(bootstrap_peers@), now_ms),
    {
        let mut known = KnownPeers { peers: KeyedMap::new() };
        assert(known@ =~= Map::empty());
        let ghost all = permanent_view(bootstrap_peers@);
        let mut i: usize = 0;
        while i < bootstrap_peers.len()
            invariant
                i <= bootstrap_peers.len(),
                all == permanent_view(bootstrap_peers@),
                known.wf(),
                known@ == bootstrap_peers_map(all.take(i as int), now_ms),
            decreases bootstrap_peers.len() - i,
        {
            let entry = &bootstrap_peers[i];
            let mut addresses: Vec<Multiaddr> = Vec::new();
            addresses.push(entry.1.clone());
            assert(addrs_view(addresses@) =~= seq![entry.1@]);
            let status = PeerConnectionStatus { addresses, last_seen_ms: now_ms, connection_attempts: 0 };
            assert(all.take(i + 1).drop_last() =~= all.take(i as int));
            assert(all.take(i + 1).last() == (entry.0@, entry.1@));
            known.put(entry.0.clone(), status);
            i = i + 1;
        }
        assert(all.take(i as int) =~= all);
        known
    }

    /// The status of a peer.
    pub fn status(&self, peer_id: &PeerId) -> (status: Option<&PeerConnectionStatus>)
        requires
            self.wf(),
        ensures
            match status {
                Some(s) => self@.contains_key(peer_id@) && s@ == self@[peer_id@],
                None => !self@.contains_key(peer_id@),
            },
    {
        self.peers.get(peer_id)
    }

    /// The number of known peers.
    pub fn len(&self) -> (n: usize)
        requires
            self.wf(),
        ensures
            self@.dom().finite(),
            n == self@.dom().len(),
    {
        let n = self.peers.len();
        assert(self@.dom() =~= self.peers.map().dom());
        n
    }

    /// Handle discovery-specific events: a discovered peer is recorded with
    /// the addresses the behaviour reports for it, met at `now_ms`; the event
    /// for the main loop is handed back, where there is one.
    pub fn on_discovery_event(
        &mut self,
        behaviour: &DiscoveryBehaviour,
        event: DiscoveryOut,
        now_ms: u64,
    ) -> (out: Option<DiscoveryEvent>)
        requires
            old(self).wf(),
            behaviour.wf(),
        ensures
            final(self).wf(),
            event_view(out) == main_loop_event(behaviour@, event),
            event matches DiscoveryOut::Discovered(peer) ==> event_view(out) == Some(
                DiscoveryEventView::PeerDiscovered {
                    peer_id: peer@,
                    addresses: final(self)@[peer@].addresses,
                },
            ),
            event matches DiscoveryOut::ValueFound { key, value, .. } ==> (valid_utf8(key@)
                ==> event_view(out) == Some(
                DiscoveryEventView::ValueRetrieved { key: decode_utf8(key@), value: value@ },
            )),
            event matches DiscoveryOut::ValuePut(key, _) ==> (valid_utf8(key@) ==> event_view(out)
                == Some(DiscoveryEventView::ValueStored { key: decode_utf8(key@) })),
            match event {
                DiscoveryOut::Discovered(peer) => final(self)@ == old(self)@.insert(
                    peer@,
                    fresh_status(reported_addresses(behaviour@, peer@), now_ms),
                ),
                _ => final(self)@ == old(self)@,
            },
    {
        match event {
            DiscoveryOut::Discovered(peer_id) => {
                let addresses = behaviour.addresses_of_peer(&peer_id);
                let status = PeerConnectionStatus {
                    addresses: copy_addresses(&addresses),
                    last_seen_ms: now_ms,
                    connection_attempts: 0,
                };
                self.put(peer_id.clone(), status);
                Some(DiscoveryEvent::PeerDiscovered { peer_id, addresses })
            },
            DiscoveryOut::UnroutablePeer(peer_id) => Some(DiscoveryEvent::PeerUnreachable { peer_id }),
            DiscoveryOut::ValueFound { key, value, .. } => Some(
                DiscoveryEvent::ValueRetrieved { key: lossy_utf8(&key), value },
            ),
            DiscoveryOut::ValuePut(key, _) => Some(
                DiscoveryEvent::ValueStored { key: lossy_utf8(&key) },
            ),
            _ => None,
        }
    }

    /// Handle commands from the main loop, handing back what the DHT is to
    /// be asked.
    ///
    /// A known peer's address is handed to the behaviour and appended to the
    /// peer's known addresses (a peer met for the first time is met at
    /// `now_ms`). Store and get requests go to the DHT under the UTF-8 bytes
    /// of their key. A connection count becomes the behaviour's count of open
    /// connections.
    pub fn on_command(
        &mut self,
        behaviour: &mut DiscoveryBehaviour,
        command: DiscoveryCommand,
        now_ms: u64,
    ) -> (request: Option<KademliaRequest>)
        requires
            old(self).wf(),
            old(behaviour).wf(),
        ensures
            final(self).wf(),
            final(behaviour).wf(),
            match command {
                DiscoveryCommand::AddKnownPeer { peer_id, addr } => {
                    &&& final(self)@ == old(self)@.insert(
                        peer_id@,
                        if old(self)@.contains_key(peer_id@) {
                            PeerStatusView {
                                addresses: old(self)@[peer_id@].addresses.push(addr@),
                                ..old(self)@[peer_id@]
                            }
                        } else {
                            fresh_status(seq![addr@], now_ms)
                        },
                    )
                    &&& final(behaviour)@ == (DiscoveryState {
                        ephemeral_addresses: crate::behaviour::record_address(
                            old(behaviour)@.ephemeral_addresses,
                            peer_id@,
                            addr@,
                        ),
                        pending_events: if crate::behaviour::addresses_for(
                            old(behaviour)@.ephemeral_addresses,
                            peer_id@,
                        ).contains(addr@) {
                            old(behaviour)@.pending_events
                        } else {
                            old(behaviour)@.pending_events.push(
                                crate::behaviour::DiscoveryOutView::Discovered(peer_id@),
                            )
                        },
                        ..old(behaviour)@
                    })
                    &&& request_view(request) == (if old(behaviour)@.kademlia_enabled()
                        && old(behaviour)@.dht_accepts(addr@) && !crate::behaviour::addresses_for(
                        old(behaviour)@.ephemeral_addresses,
                        peer_id@,
                    ).contains(addr@) {
                        Some(KademliaRequestView::AddAddress { peer_id: peer_id@, addr: addr@ })
                    } else {
                        None
                    })
                },
                DiscoveryCommand::Bootstrap => {
                    &&& final(self)@ == old(self)@
                    &&& final(behaviour)@ == old(behaviour)@
                    &&& request_view(request) == (if old(behaviour)@.kademlia_enabled() {
                        Some(KademliaRequestView::Bootstrap)
                    } else {
                        None
                    })
                },
                DiscoveryCommand::StoreValue { key, value } => {
                    &&& final(self)@ == old(self)@
                    &&& final(behaviour)@ == old(behaviour)@
                    &&& request_view(request) == (if old(behaviour)@.kademlia_enabled() {
                        Some(KademliaRequestView::PutRecord { key: encode_utf8(key@), value: value@ })
                    } else {
                        None
                    })
                },
                DiscoveryCommand::GetValue { key } => {
                    &&& final(self)@ == old(self)@
                    &&& final(behaviour)@ == old(behaviour)@
                    &&& request_view(request) == (if old(behaviour)@.kademlia_enabled() {
                        Some(KademliaRequestView::GetRecord { key: encode_utf8(key@) })
                    } else {
                        None
                    })
                },
                DiscoveryCommand::UpdateConnectionCount { count } => {
                    &&& final(self)@ == old(self)@
                    &&& final(behaviour)@ == (DiscoveryState {
                        num_connections: count,
                        ..old(behaviour)@
                    })
                    &&& request is None
                },
            },
    {
        match command {
            DiscoveryCommand::AddKnownPeer { peer_id, addr } => {
                let request = behaviour.add_known_address(peer_id.clone(), addr.clone());
                let ghost a = addr@;
                let status = match self.take(&peer_id) {
                    Some(old_status) => {
                        let mut addresses = old_status.addresses;
                        let ghost before = addresses@;
                        addresses.push(addr);
                        assert(addrs_view(addresses@) =~= addrs_view(before).push(a));
                        PeerConnectionStatus {
                            addresses,
                            last_seen_ms: old_status.last_seen_ms,
                            connection_attempts: old_status.connection_attempts,
                        }
                    },
                    None => {
                        let mut addresses: Vec<Multiaddr> = Vec::new();
                        addresses.push(addr);
                        assert(addrs_view(addresses@) =~= seq![a]);
                        PeerConnectionStatus { addresses, last_seen_ms: now_ms, connection_attempts: 0 }
                    },
                };
                self.put(peer_id, status);
                assert(final(self)@ =~= old(self)@.insert(peer_id@, status@)) by {
                    assert(old(self)@.remove(peer_id@).insert(peer_id@, status@) =~= old(self)@.insert(peer_id@, status@));
                };
                request
            },
            DiscoveryCommand::Bootstrap => behaviour.bootstrap(),
            DiscoveryCommand::StoreValue { key, value } => {
                let bytes = key.as_str().as_bytes_vec();
                behaviour.put_value(bytes, value)
            },
            DiscoveryCommand::GetValue { key } => {
                let bytes = key.as_str().as_bytes_vec();
                behaviour.get_value(bytes)
            },
            DiscoveryCommand::UpdateConnectionCount { count } => {
                behaviour.set_num_connections(count);
                None
            },
        }
    }

    /// Update peer connection status: a known peer was seen at `now_ms`, and
    /// its failed attempts are forgotten when it connected.
    pub fn update_peer_status(&mut self, peer_id: &PeerId, connected: bool, now_ms: u64)
        requires
            old(self).wf(),
        ensures
            final(self).wf(),
            old(self)@.contains_key(peer_id@) ==> final(self)@ == old(self)@.insert(
                peer_id@,
                status_after_update(old(self)@[peer_id@], connected, now_ms),
            ),
            !old(self)@.contains_key(peer_id@) ==> final(self)@ == old(self)@,
            old(self)@.contains_key(peer_id@) ==> final(self)@[peer_id@].last_seen_ms == now_ms
                && final(self)@[peer_id@].addresses == old(self)@[peer_id@].addresses,
            old(self)@.contains_key(peer_id@) && connected ==> final(self)@[peer_id@].connection_attempts
                == 0,
            old(self)@.contains_key(peer_id@) && !connected ==> final(self)@[peer_id@].connection_attempts
                == old(self)@[peer_id@].connection_attempts,
    {
        match self.take(peer_id) {
            Some(status) => {
                let updated = PeerConnectionStatus {
                    addresses: status.addresses,
                    last_seen_ms: now_ms,
                    connection_attempts: if connected { 0 } else { status.connection_attempts },
                };
                self.put(peer_id.clone(), updated);
                assert(old(self)@.remove(peer_id@).insert(peer_id@, updated@) =~= old(self)@.insert(peer_id@, updated@));
            },
            None => {
                assert(self@ =~= old(self)@);
            },
        }
    }

    /// Handle connection failures: a known peer's failed attempts grow by
    /// one, and once they exceed the maximum the peer is reported
    /// unreachable.
    pub fn handle_connection_failure(&mut self, peer_id: &PeerId) -> (out: Option<DiscoveryEvent>)
        requires
            old(self).wf(),
            old(self)@.contains_key(peer_id@) ==> old(self)@[peer_id@].connection_attempts < u32::MAX,
        ensures
            final(self).wf(),
            old(self)@.contains_key(peer_id@) ==> {
                let after = status_after_failure(old(self)@[peer_id@]);
                &&& final(self)@ == old(self)@.insert(peer_id@, after)
                &&& event_view(out) == (if counts_as_unreachable(after) {
                    Some(DiscoveryEventView::PeerUnreachable { peer_id: peer_id@ })
                } else {
                    None
                })
            },
            !old(self)@.contains_key(peer_id@) ==> final(self)@ == old(self)@ && out is None,
            old(self)@.contains_key(peer_id@) ==> final(self)@[peer_id@].connection_attempts
                == old(self)@[peer_id@].connection_attempts + 1 && (out is Some <==> old(
                self,
            )@[peer_id@].connection_attempts >= MAX_CONNECTION_ATTEMPTS),
    {
        match self.take(peer_id) {
            Some(status) => {
                let attempts = status.connection_attempts + 1;
                let updated = PeerConnectionStatus {
                    addresses: status.addresses,
                    last_seen_ms: status.last_seen_ms,
                    connection_attempts: attempts,
                };
                self.put(peer_id.clone(), updated);
                assert(old(self)@.remove(peer_id@).insert(peer_id@, updated@) =~= old(self)@.insert(peer_id@, updated@));
                if attempts > MAX_CONNECTION_ATTEMPTS {
                    Some(DiscoveryEvent::PeerUnreachable { peer_id: peer_id.clone() })
                } else {
                    None
                }
            },
            None => {
                assert(self@ =~= old(self)@);
                None
            },
        }
    }
}

} // verus!
