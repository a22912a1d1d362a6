//! The decision core of the discovery behaviour.
//!
//! The behaviour keeps the addresses it knows for each peer, the events it
//! owes its user, the count of open connections and the schedule of random
//! DHT walks. The Kademlia DHT, mDNS and the timers are network machinery
//! that the swarm drives; the behaviour tells its driver what to ask of the
//! DHT (a [`KademliaRequest`]) and turns what the DHT and mDNS report into
//! the events of the behaviour.
use vstd::prelude::*;
use std::collections::VecDeque;
use std::time::Duration;
use linked_hash_set::LinkedHashSet;
use crate::address::{can_add_to_dht, Multiaddr, PeerId, ProtocolView, passes_private_ip_filter};
use crate::external_addresses::{
    address_set_insert, address_set_items, address_set_len, address_set_pop_front,
    address_set_to_vec, differs_from, new_address_set,
};
use crate::keyed_map::KeyedMap;
use crate::network::Network;

verus! {

/// The longest pause between two random DHT walks, in seconds.
pub const MAX_RANDOM_WALK_DELAY_SECS: u64 = 60;

/// Maximum number of known external addresses that we will cache.
pub const MAX_KNOWN_EXTERNAL_ADDRESSES: usize = 32;

/// Whether a pause between random walks is one that the schedule reaches
/// from its first pause of one second: 1, 2, 4, 8, 16, 32 or 60 seconds.
pub open spec fn is_backoff_delay(delay: u64) -> bool {
    delay == 1 || delay == 2 || delay == 4 || delay == 8 || delay == 16 || delay == 32
        || delay == MAX_RANDOM_WALK_DELAY_SECS
}

/// The cache of external addresses after one is confirmed: the address
/// becomes the most recent, and where the cache then holds more than the
/// maximum, the least recently confirmed address leaves it.
pub open spec fn confirm_external_address(
    cache: Seq<Seq<ProtocolView>>,
    addr: Seq<ProtocolView>,
) -> Seq<Seq<ProtocolView>> {
    let after = cache.filter(differs_from(addr)).push(addr);
    if after.len() > MAX_KNOWN_EXTERNAL_ADDRESSES {
        after.drop_first()
    } else {
        after
    }
}

/// The views of a sequence of addresses.
pub open spec fn addrs_view(addrs: Seq<Multiaddr>) -> Seq<Seq<ProtocolView>> {
    addrs.map_values(|a: Multiaddr| a@)
}

/// The views of a sequence of peer identities.
pub open spec fn peers_view(peers: Seq<PeerId>) -> Seq<Seq<u8>> {
    peers.map_values(|p: PeerId| p@)
}

/// Events generated by the discovery behaviour.
#[derive(Debug)]
pub enum DiscoveryOut {
    /// We have discovered a new peer.
    Discovered(PeerId),
    /// We have discovered a peer but it has an unroutable address.
    UnroutablePeer(PeerId),
    /// A random Kademlia query has started.
    RandomKademliaStarted,
    /// We have successfully found the closest peers to a key.
    ClosestPeersFound { key: Vec<u8>, peers: Vec<PeerId>, duration: Duration },
    /// We failed to find the closest peers to a key.
    ClosestPeersNotFound { key: Vec<u8>, duration: Duration },
    /// We have successfully retrieved a value from the DHT.
    ValueFound { key: Vec<u8>, value: Vec<u8>, duration: Duration },
    /// We failed to retrieve a value from the DHT.
    ValueNotFound { key: Vec<u8>, duration: Duration },
    /// We have successfully stored a value in the DHT.
    ValuePut(Vec<u8>, Duration),
    /// We failed to store a value in the DHT.
    ValuePutFailed(Vec<u8>, Duration),
    /// We have successfully started providing a key.
    StartedProviding(Vec<u8>, Duration),
    /// We failed to start providing a key.
    StartProvidingFailed(Vec<u8>, Duration),
    /// We have found providers for a key.
    ProvidersFound { key: Vec<u8>, providers: Vec<PeerId>, duration: Duration },
    /// We failed to find providers for a key.
    ProvidersNotFound(Vec<u8>, Duration),
}

/// The mathematical value of a [`DiscoveryOut`].
pub enum DiscoveryOutView {
    Discovered(Seq<u8>),
    UnroutablePeer(Seq<u8>),
    RandomKademliaStarted,
    ClosestPeersFound { key: Seq<u8>, peers: Seq<Seq<u8>>, duration: Duration },
    ClosestPeersNotFound { key: Seq<u8>, duration: Duration },
    ValueFound { key: Seq<u8>, value: Seq<u8>, duration: Duration },
    ValueNotFound { key: Seq<u8>, duration: Duration },
    ValuePut(Seq<u8>, Duration),
    ValuePutFailed(Seq<u8>, Duration),
    StartedProviding(Seq<u8>, Duration),
    StartProvidingFailed(Seq<u8>, Duration),
    ProvidersFound { key: Seq<u8>, providers: Seq<Seq<u8>>, duration: Duration },
    ProvidersNotFound(Seq<u8>, Duration),
}

impl View for DiscoveryOut {
    type V = DiscoveryOutView;

    open spec fn view(&self) -> DiscoveryOutView {
        match self {
            DiscoveryOut::Discovered(p) => DiscoveryOutView::Discovered(p@),
            DiscoveryOut::UnroutablePeer(p) => DiscoveryOutView::UnroutablePeer(p@),
            DiscoveryOut::RandomKademliaStarted => DiscoveryOutView::RandomKademliaStarted,
            DiscoveryOut::ClosestPeersFound { key, peers, duration } =>
                DiscoveryOutView::ClosestPeersFound {
                    key: key@,
                    peers: peers_view(peers@),
                    duration: *duration,
                },
            DiscoveryOut::ClosestPeersNotFound { key, duration } =>
                DiscoveryOutView::ClosestPeersNotFound { key: key@, duration: *duration },
            DiscoveryOut::ValueFound { key, value, duration } =>
                DiscoveryOutView::ValueFound { key: key@, value: value@, duration: *duration },
            DiscoveryOut::ValueNotFound { key, duration } =>
                DiscoveryOutView::ValueNotFound { key: key@, duration: *duration },
            DiscoveryOut::ValuePut(k, d) => DiscoveryOutView::ValuePut(k@, *d),
            DiscoveryOut::ValuePutFailed(k, d) => DiscoveryOutView::ValuePutFailed(k@, *d),
            DiscoveryOut::StartedProviding(k, d) => DiscoveryOutView::StartedProviding(k@, *d),
            DiscoveryOut::StartProvidingFailed(k, d) => DiscoveryOutView::StartProvidingFailed(
                k@,
                *d,
            ),
            DiscoveryOut::ProvidersFound { key, providers, duration } =>
                DiscoveryOutView::ProvidersFound {
                    key: key@,
                    providers: peers_view(providers@),
                    duration: *duration,
                },
            DiscoveryOut::ProvidersNotFound(k, d) => DiscoveryOutView::ProvidersNotFound(k@, *d),
        }
    }
}

/// The views of a sequence of events.
pub open spec fn events_view(events: Seq<DiscoveryOut>) -> Seq<DiscoveryOutView> {
    events.map_values(|e: DiscoveryOut| e@)
}

/// What the behaviour asks of its Kademlia DHT.
#[derive(Debug)]
pub enum KademliaRequest {
    /// Add an address of a peer to the routing table.
    AddAddress { peer_id: PeerId, addr: Multiaddr },
    /// Start fetching the record under a key.
    GetRecord { key: Vec<u8> },
    /// Start storing a record, with no publisher and no expiry, on a quorum
    /// of one peer.
    PutRecord { key: Vec<u8>, value: Vec<u8> },
    /// Bootstrap the DHT.
    Bootstrap,
    /// Start a query for the peers closest to a freshly drawn random peer
    /// identity.
    FindRandomClosestPeers,
}

/// The mathematical value of a [`KademliaRequest`].
pub enum KademliaRequestView {
    AddAddress { peer_id: Seq<u8>, addr: Seq<ProtocolView> },
    GetRecord { key: Seq<u8> },
    PutRecord { key: Seq<u8>, value: Seq<u8> },
    Bootstrap,
    FindRandomClosestPeers,
}

impl View for KademliaRequest {
    type V = KademliaRequestView;

    open spec fn view(&self) -> KademliaRequestView {
        match self {
            KademliaRequest::AddAddress { peer_id, addr } => KademliaRequestView::AddAddress {
                peer_id: peer_id@,
                addr: addr@,
            },
            KademliaRequest::GetRecord { key } => KademliaRequestView::GetRecord { key: key@ },
            KademliaRequest::PutRecord { key, value } => KademliaRequestView::PutRecord {
                key: key@,
                value: value@,
            },
            KademliaRequest::Bootstrap => KademliaRequestView::Bootstrap,
            KademliaRequest::FindRandomClosestPeers => KademliaRequestView::FindRandomClosestPeers,
        }
    }
}

/// The views of an optional request.
pub open spec fn request_view(request: Option<KademliaRequest>) -> Option<KademliaRequestView> {
    match request {
        Some(r) => Some(r@),
        None => None,
    }
}

/// What a Kademlia query reported when it progressed.
#[derive(Debug)]
pub enum KademliaOutcome {
    /// A closest-peers query ended: with the peers found, or with `None`
    /// where it timed out.
    ClosestPeers { key: Vec<u8>, peers: Option<Vec<PeerId>>, duration: Duration },
    /// A record lookup found a record.
    RecordFound { key: Vec<u8>, value: Vec<u8>, duration: Duration },
    /// A record lookup failed: no record was found, the quorum was not met,
    /// or the query timed out.
    RecordNotFound { key: Vec<u8>, duration: Duration },
    /// Any other progress, which the behaviour does not report.
    Other,
}

/// The event that a progressed Kademlia query gives.
pub open spec fn kademlia_event(outcome: KademliaOutcome) -> Option<DiscoveryOut> {
    match outcome {
        KademliaOutcome::ClosestPeers { key, peers, duration } => match peers {
            Some(peers) => Some(DiscoveryOut::ClosestPeersFound { key, peers, duration }),
            None => Some(DiscoveryOut::ClosestPeersNotFound { key, duration }),
        },
        KademliaOutcome::RecordFound { key, value, duration } => Some(
            DiscoveryOut::ValueFound { key, value, duration },
        ),
        KademliaOutcome::RecordNotFound { key, duration } => Some(
            DiscoveryOut::ValueNotFound { key, duration },
        ),
        KademliaOutcome::Other => None,
    }
}

/// What a random-walk timer firing decides.
pub struct RandomWalkStep {
    /// The query to start, if any.
    pub request: Option<KademliaRequest>,
    /// Seconds until the timer fires again.
    pub next_delay_secs: u64,
}

/// The mathematical state of the discovery behaviour.
pub struct DiscoveryState {
    pub permanent_addresses: Seq<(Seq<u8>, Seq<ProtocolView>)>,
    pub ephemeral_addresses: Map<Seq<u8>, Seq<Seq<ProtocolView>>>,
    pub pending_events: Seq<DiscoveryOutView>,
    pub local_peer_id: Seq<u8>,
    pub num_connections: u64,
    pub allow_private_ip: bool,
    pub discovery_only_if_under_num: u64,
    pub allow_non_globals_in_dht: bool,
    pub known_external_addresses: Seq<Seq<ProtocolView>>,
    pub kademlia_protocol: Option<Seq<char>>,
    pub random_walk: bool,
    pub duration_to_next_kad: u64,
    pub network: Network,
}

impl DiscoveryState {
    /// Whether the behaviour has a Kademlia DHT.
    pub open spec fn kademlia_enabled(self) -> bool {
        self.kademlia_protocol is Some
    }

    /// Whether an address may go into the DHT: non-global addresses are
    /// allowed there, or the address can be added to it anyway.
    pub open spec fn dht_accepts(self, addr: Seq<ProtocolView>) -> bool {
        self.allow_non_globals_in_dht || can_add_to_dht(addr)
    }

    /// Whether discovery runs: fewer connections are open than the limit.
    pub open spec fn under_discovery_limit(self) -> bool {
        self.num_connections < self.discovery_only_if_under_num
    }

    /// The invariant of the state: no peer has an address twice; the pause
    /// between random walks is one that the schedule reaches from one second,
    /// so between one second and the maximum; and the cache of external
    /// addresses holds no address twice and no more than its maximum.
    pub open spec fn consistent(self) -> bool {
        &&& forall|p: Seq<u8>| #[trigger] self.ephemeral_addresses.contains_key(p)
            ==> self.ephemeral_addresses[p].no_duplicates()
        &&& 1 <= self.duration_to_next_kad <= MAX_RANDOM_WALK_DELAY_SECS
        &&& is_backoff_delay(self.duration_to_next_kad)
        &&& self.known_external_addresses.no_duplicates()
        &&& self.known_external_addresses.len() <= MAX_KNOWN_EXTERNAL_ADDRESSES
    }
}

/// The addresses recorded for a peer: none where it has no entry.
pub open spec fn addresses_for(
    book: Map<Seq<u8>, Seq<Seq<ProtocolView>>>,
    peer: Seq<u8>,
) -> Seq<Seq<ProtocolView>> {
    if book.contains_key(peer) {
        book[peer]
    } else {
        Seq::empty()
    }
}

/// The address book after recording an address of a peer: the address joins
/// the end of the peer's list unless the list holds it already.
pub open spec fn record_address(
    book: Map<Seq<u8>, Seq<Seq<ProtocolView>>>,
    peer: Seq<u8>,
    addr: Seq<ProtocolView>,
) -> Map<Seq<u8>, Seq<Seq<ProtocolView>>> {
    if addresses_for(book, peer).contains(addr) {
        book
    } else {
        book.insert(peer, addresses_for(book, peer).push(addr))
    }
}

/// The address book after an address of a peer failed: the address leaves
/// the peer's list, and a peer with no address left leaves the book.
pub open spec fn forget_address(
    book: Map<Seq<u8>, Seq<Seq<ProtocolView>>>,
    peer: Seq<u8>,
    addr: Seq<ProtocolView>,
) -> Map<Seq<u8>, Seq<Seq<ProtocolView>>> {
    if book.contains_key(peer) {
        let kept = book[peer].filter(differs_from(addr));
        if kept.len() == 0 {
            book.remove(peer)
        } else {
            book.insert(peer, kept)
        }
    } else {
        book
    }
}

/// The permanent addresses of a peer, in the order they were configured.
pub open spec fn permanent_for(perm: Seq<(Seq<u8>, Seq<ProtocolView>)>, peer: Seq<u8>) -> Seq<
    Seq<ProtocolView>,
>
    decreases perm.len(),
{
    if perm.len() == 0 {
        Seq::empty()
    } else {
        let rest = permanent_for(perm.drop_last(), peer);
        if perm.last().0 == peer {
            rest.push(perm.last().1)
        } else {
            rest
        }
    }
}

/// The addresses reported for a peer: its permanent addresses, then the ones
/// it was seen at, without private addresses unless those are allowed.
pub open spec fn reported_addresses(s: DiscoveryState, peer: Seq<u8>) -> Seq<Seq<ProtocolView>> {
    let all = permanent_for(s.permanent_addresses, peer) + addresses_for(
        s.ephemeral_addresses,
        peer,
    );
    if s.allow_private_ip {
        all
    } else {
        all.filter(private_ip_filter())
    }
}

/// The test that an address passes when private addresses are not allowed.
pub open spec fn private_ip_filter() -> spec_fn(Seq<ProtocolView>) -> bool {
    |a: Seq<ProtocolView>| passes_private_ip_filter(a)
}

/// The pause before the random walk after one of `delay` seconds.
pub open spec fn next_random_walk_delay(delay: u64) -> u64 {
    if 2 * delay < MAX_RANDOM_WALK_DELAY_SECS {
        (2 * delay) as u64
    } else {
        MAX_RANDOM_WALK_DELAY_SECS
    }
}

/// The state after a connection opened.
pub open spec fn with_connection_opened(s: DiscoveryState) -> DiscoveryState {
    DiscoveryState { num_connections: (s.num_connections + 1) as u64, ..s }
}

/// The state after a connection closed: one connection fewer, and never
/// fewer than none.
pub open spec fn with_connection_closed(s: DiscoveryState) -> DiscoveryState {
    DiscoveryState {
        num_connections: if s.num_connections > 0 {
            (s.num_connections - 1) as u64
        } else {
            0
        },
        ..s
    }
}

/// Closing a connection undoes opening one.
pub proof fn lemma_close_undoes_open(s: DiscoveryState)
    requires
        s.num_connections < u64::MAX,
    ensures
        with_connection_closed(with_connection_opened(s)) == s,
{
}

/// Recording an address makes the peer have it, and recording it again
/// changes nothing.
pub proof fn lemma_record_address_idempotent(
    book: Map<Seq<u8>, Seq<Seq<ProtocolView>>>,
    peer: Seq<u8>,
    addr: Seq<ProtocolView>,
)
    ensures
        addresses_for(record_address(book, peer, addr), peer).contains(addr),
        record_address(record_address(book, peer, addr), peer, addr) == record_address(
            book,
            peer,
            addr,
        ),
        forall|p: Seq<u8>| p != peer ==> addresses_for(record_address(book, peer, addr), p)
            == #[trigger] addresses_for(book, p),
{
    let list = addresses_for(book, peer);
    if !list.contains(addr) {
        assert(list.push(addr)[list.len() as int] == addr);
    }
}

/// When private addresses are not allowed, every address reported for a peer
/// passes the private-address filter, and every address of the peer that
/// passes it is reported.
pub proof fn lemma_reported_addresses_public(s: DiscoveryState, peer: Seq<u8>, addr: Seq<ProtocolView>)
    requires
        !s.allow_private_ip,
    ensures
        reported_addresses(s, peer).contains(addr) ==> passes_private_ip_filter(addr),
        passes_private_ip_filter(addr) && (permanent_for(s.permanent_addresses, peer) + addresses_for(
            s.ephemeral_addresses,
            peer,
        )).contains(addr) ==> reported_addresses(s, peer).contains(addr),
{
    let all = permanent_for(s.permanent_addresses, peer) + addresses_for(s.ephemeral_addresses, peer);
    let pred = private_ip_filter();
    if reported_addresses(s, peer).contains(addr) {
        let i = choose|i: int| 0 <= i < all.filter(pred).len() && all.filter(pred)[i] == addr;
        all.lemma_filter_pred(pred, i);
    }
    if passes_private_ip_filter(addr) && all.contains(addr) {
        let i = choose|i: int| 0 <= i < all.len() && all[i] == addr;
        all.lemma_filter_contains(pred, i);
    }
}

/// The pause between random walks never shrinks and never exceeds the
/// maximum; from half the maximum on it is the maximum.
pub proof fn lemma_random_walk_backoff(delay: u64)
    requires
        1 <= delay <= MAX_RANDOM_WALK_DELAY_SECS,
    ensures
        delay <= next_random_walk_delay(delay) <= MAX_RANDOM_WALK_DELAY_SECS,
        2 * delay >= MAX_RANDOM_WALK_DELAY_SECS ==> next_random_walk_delay(delay)
            == MAX_RANDOM_WALK_DELAY_SECS,
        2 * delay < MAX_RANDOM_WALK_DELAY_SECS ==> next_random_walk_delay(delay) == 2 * delay,
        is_backoff_delay(delay) ==> is_backoff_delay(next_random_walk_delay(delay)),
{
}

/// A closest-peers query that succeeded is reported as found, with its key,
/// exactly the peers it found (however many, none included) and its
/// duration; only a query that timed out is reported as not found, and a
/// not-found report comes from nothing else.
pub proof fn lemma_closest_peers_events(
    key: Vec<u8>,
    peers: Vec<PeerId>,
    duration: Duration,
    outcome: KademliaOutcome,
)
    ensures
        kademlia_event(KademliaOutcome::ClosestPeers { key, peers: Some(peers), duration })
            == Some(DiscoveryOut::ClosestPeersFound { key, peers, duration }),
        kademlia_event(KademliaOutcome::ClosestPeers { key, peers: None, duration }) == Some(
            DiscoveryOut::ClosestPeersNotFound { key, duration },
        ),
        (kademlia_event(outcome) matches Some(DiscoveryOut::ClosestPeersNotFound { .. })) ==> (
        outcome matches KademliaOutcome::ClosestPeers { peers: None, .. }),
{
}

/// When private addresses are not allowed, no address reported for a peer
/// has an IPv4 component in 10.0.0.0/8, 172.16.0.0/12 or 192.168.0.0/16,
/// nor the IPv6 loopback or unspecified address.
pub proof fn lemma_private_ips_never_reported(
    s: DiscoveryState,
    peer: Seq<u8>,
    addr: Seq<ProtocolView>,
    i: int,
)
    requires
        !s.allow_private_ip,
        reported_addresses(s, peer).contains(addr),
        0 <= i < addr.len(),
    ensures
        addr[i] matches ProtocolView::Ip4(ip) ==> !(0x0a00_0000 <= ip < 0x0b00_0000) && !(0xac10_0000
            <= ip < 0xac20_0000) && !(0xc0a8_0000 <= ip < 0xc0a9_0000),
        addr[i] matches ProtocolView::Ip6(ip) ==> ip != 0 && ip != 1,
{
    lemma_reported_addresses_public(s, peer, addr);
    assert(crate::address::component_passes_private_ip_filter(addr[i]));
    if let ProtocolView::Ip4(ip) = addr[i] {
        crate::address::lemma_ipv4_private_ranges(ip);
    }
}

/// The pause after the `k`-th random walk of a fresh behaviour.
pub open spec fn random_walk_delay_after(k: nat) -> u64
    decreases k,
{
    if k == 0 {
        1
    } else {
        next_random_walk_delay(random_walk_delay_after((k - 1) as nat))
    }
}

/// Over the walks of a fresh behaviour, the pause is always one of 1, 2, 4,
/// 8, 16, 32 and 60 seconds, and it never decreases from one walk to the
/// next.
pub proof fn lemma_random_walk_schedule(k: nat)
    ensures
        is_backoff_delay(random_walk_delay_after(k)),
        random_walk_delay_after(k) <= random_walk_delay_after(k + 1),
        random_walk_delay_after(k + 1) <= MAX_RANDOM_WALK_DELAY_SECS,
    decreases k,
{
    if k > 0 {
        lemma_random_walk_schedule((k - 1) as nat);
    }
    lemma_random_walk_backoff(random_walk_delay_after(k));
}

/// After an external address is confirmed, the cache holds it once, as its
/// most recent item, keeps every other address in the same order, and holds
/// no address twice if it held none twice before.
pub proof fn lemma_confirmed_address_is_latest(cache: Seq<Seq<ProtocolView>>, addr: Seq<ProtocolView>)
    ensures
        ({
            let after = cache.filter(differs_from(addr)).push(addr);
            &&& after.last() == addr
            &&& forall|a: Seq<ProtocolView>| a != addr ==> (#[trigger] after.contains(a)
                <==> cache.contains(a))
            &&& cache.no_duplicates() ==> after.no_duplicates()
        }),
{
    let pred = differs_from(addr);
    let kept = cache.filter(pred);
    let after = kept.push(addr);
    assert forall|a: Seq<ProtocolView>| a != addr implies (#[trigger] after.contains(a)
        <==> cache.contains(a)) by {
        lemma_contains_push(kept, addr, a);
        if cache.contains(a) {
            let i = choose|i: int| 0 <= i < cache.len() && cache[i] == a;
            cache.lemma_filter_contains(pred, i);
        }
        if kept.contains(a) {
            lemma_filter_subset(cache, pred, a);
        }
    }
    if cache.no_duplicates() {
        lemma_filter_keeps_distinct(cache, pred);
        assert(!kept.contains(addr)) by {
            if kept.contains(addr) {
                let i = choose|i: int| 0 <= i < kept.len() && kept[i] == addr;
                cache.lemma_filter_pred(pred, i);
            }
        }
        lemma_push_new_keeps_distinct(kept, addr);
    }
}

/// The cache of external addresses keeps its bounds: after an address is
/// confirmed, the cache holds that address, as its most recent item; it holds
/// no address twice and no more than its maximum where that was so before;
/// it holds no other address that it did not hold before; and confirming the
/// same address again leaves it as it is.
pub proof fn lemma_external_address_cache(cache: Seq<Seq<ProtocolView>>, addr: Seq<ProtocolView>)
    requires
        cache.no_duplicates(),
        cache.len() <= MAX_KNOWN_EXTERNAL_ADDRESSES,
    ensures
        ({
            let result = confirm_external_address(cache, addr);
            &&& result.len() > 0
            &&& result.last() == addr
            &&& result.no_duplicates()
            &&& result.len() <= MAX_KNOWN_EXTERNAL_ADDRESSES
            &&& forall|a: Seq<ProtocolView>| #[trigger] result.contains(a) && a != addr ==> cache.contains(a)
            &&& confirm_external_address(result, addr) == result
        }),
{
    let pred = differs_from(addr);
    let after = cache.filter(pred).push(addr);
    lemma_confirmed_address_is_latest(cache, addr);
    cache.lemma_filter_len(pred);
    let result = confirm_external_address(cache, addr);
    if after.len() > MAX_KNOWN_EXTERNAL_ADDRESSES {
        assert(result == after.drop_first());
        lemma_drop_first_keeps_distinct(after);
        assert(result.last() == after.last());
        assert forall|a: Seq<ProtocolView>| #[trigger] result.contains(a) implies after.contains(a) by {
            let i = choose|i: int| 0 <= i < result.len() && result[i] == a;
            assert(after[i + 1] == a);
        }
    }
    assert(result.contains(addr)) by {
        assert(result[result.len() - 1] == addr);
    }
    lemma_filter_removes_last(result, addr);
    assert(result.filter(pred).push(addr) =~= result);
}

/// Removing the one occurrence of a sequence's last item, where it holds
/// no item twice, leaves the rest.
pub proof fn lemma_filter_removes_last<A>(s: Seq<A>, x: A)
    requires
        s.len() > 0,
        s.no_duplicates(),
        s.last() == x,
    ensures
        s.filter(|a: A| a != x) == s.drop_last(),
{
    let pred = |a: A| a != x;
    reveal(Seq::filter);
    assert forall|i: int| 0 <= i < s.drop_last().len() implies pred(#[trigger] s.drop_last()[i]) by {
        assert(s[i] != s[s.len() - 1]);
    }
    lemma_filter_keeps_all(s.drop_last(), pred);
}

/// Filtering keeps a sequence whose items all pass.
pub proof fn lemma_filter_keeps_all<A>(s: Seq<A>, pred: spec_fn(A) -> bool)
    requires
        forall|i: int| 0 <= i < s.len() ==> pred(#[trigger] s[i]),
    ensures
        s.filter(pred) == s,
    decreases s.len(),
{
    reveal(Seq::filter);
    if s.len() > 0 {
        assert forall|i: int| 0 <= i < s.drop_last().len() implies pred(#[trigger] s.drop_last()[i]) by {
            assert(s.drop_last()[i] == s[i]);
        }
        lemma_filter_keeps_all(s.drop_last(), pred);
        assert(pred(s[s.len() - 1]));
        assert(s.drop_last().push(s.last()) =~= s);
    }
}

/// Dropping the first item of a sequence with no item twice gives one with
/// no item twice.
pub proof fn lemma_drop_first_keeps_distinct<A>(s: Seq<A>)
    requires
        s.len() > 0,
        s.no_duplicates(),
    ensures
        s.drop_first().no_duplicates(),
{
    assert forall|i: int, j: int| 0 <= i < s.len() - 1 && 0 <= j < s.len() - 1 && i != j implies #[trigger] s.drop_first()[i]
        != #[trigger] s.drop_first()[j] by {
        assert(s.drop_first()[i] == s[i + 1] && s.drop_first()[j] == s[j + 1]);
    }
}

/// What a filtered sequence holds, its source holds.
pub proof fn lemma_filter_subset<A>(s: Seq<A>, pred: spec_fn(A) -> bool, x: A)
    requires
        s.filter(pred).contains(x),
    ensures
        s.contains(x),
    decreases s.len(),
{
    reveal(Seq::filter);
    if s.len() > 0 {
        let rest = s.drop_last().filter(pred);
        if pred(s.last()) {
            lemma_contains_push(rest, s.last(), x);
        }
        if x != s.last() || !pred(s.last()) {
            if rest.contains(x) {
                lemma_filter_subset(s.drop_last(), pred, x);
                let i = choose|i: int| 0 <= i < s.drop_last().len() && s.drop_last()[i] == x;
                assert(s[i] == x);
            } else {
                assert(x == s.last());
                assert(s[s.len() - 1] == x);
            }
        } else {
            assert(s[s.len() - 1] == x);
        }
    }
}

/// Filtering a sequence with no item twice gives one with no item twice.
pub proof fn lemma_filter_keeps_distinct<A>(s: Seq<A>, pred: spec_fn(A) -> bool)
    requires
        s.no_duplicates(),
    ensures
        s.filter(pred).no_duplicates(),
    decreases s.len(),
{
    reveal(Seq::filter);
    if s.len() > 0 {
        let init = s.drop_last();
        assert(init.no_duplicates()) by {
            assert forall|i: int, j: int| 0 <= i < init.len() && 0 <= j < init.len() && i != j implies init[i] != init[j] by {
                assert(init[i] == s[i] && init[j] == s[j]);
            }
        }
        lemma_filter_keeps_distinct(init, pred);
        if pred(s.last()) {
            assert(!init.filter(pred).contains(s.last())) by {
                if init.filter(pred).contains(s.last()) {
                    lemma_filter_subset(init, pred, s.last());
                    let i = choose|i: int| 0 <= i < init.len() && init[i] == s.last();
                    assert(s[i] == s[s.len() - 1]);
                }
            }
            lemma_push_new_keeps_distinct(init.filter(pred), s.last());
        }
    }
}

/// Filtering a sequence with one more item at its end.
pub proof fn lemma_filter_push<A>(s: Seq<A>, x: A, pred: spec_fn(A) -> bool)
    ensures
        s.push(x).filter(pred) == (if pred(x) {
            s.filter(pred).push(x)
        } else {
            s.filter(pred)
        }),
{
    reveal(Seq::filter);
    assert(s.push(x).drop_last() =~= s);
}

/// A sequence with no item twice keeps that property when an item that it
/// does not hold joins its end.
pub proof fn lemma_push_new_keeps_distinct<A>(s: Seq<A>, x: A)
    requires
        s.no_duplicates(),
        !s.contains(x),
    ensures
        s.push(x).no_duplicates(),
{
    assert forall|i: int, j: int|
        0 <= i < s.len() + 1 && 0 <= j < s.len() + 1 && i != j implies #[trigger] s.push(x)[i]
        != #[trigger] s.push(x)[j] by {
        if i == s.len() {
            assert(s[j] != x);
        } else if j == s.len() {
            assert(s[i] != x);
        }
    }
}

/// What a sequence with one more item at its end holds.
pub proof fn lemma_contains_push<A>(s: Seq<A>, e: A, x: A)
    ensures
        s.push(e).contains(x) <==> (s.contains(x) || x == e),
{
    if s.contains(x) {
        let i = choose|i: int| 0 <= i < s.len() && s[i] == x;
        assert(s.push(e)[i] == x);
    }
    if x == e {
        assert(s.push(e)[s.len() as int] == e);
    }
    if s.push(e).contains(x) {
        let i = choose|i: int| 0 <= i < s.len() + 1 && s.push(e)[i] == x;
        if i < s.len() {
            assert(s[i] == x);
        }
    }
}

/// The set of a sequence with one more item at its end.
pub proof fn lemma_to_set_push<A>(s: Seq<A>, e: A)
    ensures
        s.push(e).to_set() == s.to_set().insert(e),
{
    assert forall|x: A| #[trigger] s.push(e).to_set().contains(x) <==> s.to_set().insert(e).contains(x) by {
        lemma_contains_push(s, e, x);
    }
    assert(s.push(e).to_set() =~= s.to_set().insert(e));
}

/// Whether a list of addresses holds an address.
fn list_contains(list: &Vec<Multiaddr>, addr: &Multiaddr) -> (found: bool)
    ensures
        found == addrs_view(list@).contains(addr@),
{
    let mut i: usize = 0;
    while i < list.len()
        invariant
            i <= list.len(),
            forall|j: int| 0 <= j < i ==> addrs_view(list@)[j] != addr@,
        decreases list.len() - i,
    {
        if list[i].same_as(addr) {
            assert(addrs_view(list@)[i as int] == addr@);
            return true;
        }
        i = i + 1;
    }
    false
}

/// Whether a list of peers holds a peer.
fn peer_list_contains(list: &Vec<PeerId>, peer: &PeerId) -> (found: bool)
    ensures
        found == peers_view(list@).contains(peer@),
{
    let mut i: usize = 0;
    while i < list.len()
        invariant
            i <= list.len(),
            forall|j: int| 0 <= j < i ==> peers_view(list@)[j] != peer@,
        decreases list.len() - i,
    {
        if list[i].same_as(peer) {
            assert(peers_view(list@)[i as int] == peer@);
            return true;
        }
        i = i + 1;
    }
    false
}

/// The mathematical address book of a map from peers to addresses.
pub open spec fn book_view(book: Map<Seq<u8>, Vec<Multiaddr>>) -> Map<
    Seq<u8>,
    Seq<Seq<ProtocolView>>,
> {
    book.map_values(|v: Vec<Multiaddr>| addrs_view(v@))
}

/// Records an address of a peer in an address book.
fn record_in_book(
    book: &mut KeyedMap<PeerId, Vec<Multiaddr>>,
    peer_id: &PeerId,
    addr: Multiaddr,
) -> (added: bool)
    requires
        old(book).wf(),
    ensures
        final(book).wf(),
        book_view(final(book).map()) == record_address(book_view(old(book).map()), peer_id@, addr@),
        added == !addresses_for(book_view(old(book).map()), peer_id@).contains(addr@),
{
    let ghost old_book = book_view(book.map());
    let present = match book.get(peer_id) {
        Some(list) => list_contains(list, &addr),
        None => false,
    };
    if present {
        return false;
    }
    let mut list = match book.remove(peer_id) {
        Some(list) => list,
        None => Vec::new(),
    };
    list.push(addr);
    let ghost new_list = list@;
    book.insert(peer_id.clone(), list);
    proof {
        assert(addrs_view(new_list) =~= addresses_for(old_book, peer_id@).push(addr@));
        assert(book_view(book.map()) =~= record_address(old_book, peer_id@, addr@));
    }
    true
}

/// The discovery behaviour's state and decisions.
pub struct DiscoveryBehaviour {
    /// User-defined list of nodes and their addresses.
    permanent_addresses: Vec<(PeerId, Multiaddr)>,
    /// Addresses that peers were seen at, without those that failed.
    ephemeral_addresses: KeyedMap<PeerId, Vec<Multiaddr>>,
    /// Events to return in priority when polled.
    pending_events: VecDeque<DiscoveryOut>,
    /// Identity of our local node.
    local_peer_id: PeerId,
    /// Number of nodes we're currently connected to.
    num_connections: u64,
    /// If false, won't return private IPv4/IPv6 addresses.
    allow_private_ip: bool,
    /// Number of active connections over which we interrupt the discovery process.
    discovery_only_if_under_num: u64,
    /// Should non-global addresses be added to the DHT?
    allow_non_globals_in_dht: bool,
    /// A cache of discovered external addresses.
    known_external_addresses: LinkedHashSet<Multiaddr>,
    /// The Neptune network-based kademlia protocol name, where the
    /// behaviour has a Kademlia DHT.
    kademlia_protocol: Option<String>,
    /// Whether random walks on the DHT are scheduled.
    random_walk: bool,
    /// The pause after the next random walk, in seconds.
    duration_to_next_kad: u64,
    /// The Neptune network this discovery is operating on.
    network: Network,
}

/// The view of an optional string.
pub open spec fn opt_string_view(s: Option<String>) -> Option<Seq<char>> {
    match s {
        Some(s) => Some(s@),
        None => None,
    }
}

/// The views of a list of permanent addresses.
pub open spec fn permanent_view(perm: Seq<(PeerId, Multiaddr)>) -> Seq<(Seq<u8>, Seq<ProtocolView>)> {
    perm.map_values(|e: (PeerId, Multiaddr)| (e.0@, e.1@))
}

impl View for DiscoveryBehaviour {
    type V = DiscoveryState;

    closed spec fn view(&self) -> DiscoveryState {
        DiscoveryState {
            permanent_addresses: permanent_view(self.permanent_addresses@),
            ephemeral_addresses: book_view(self.ephemeral_addresses.map()),
            pending_events: events_view(self.pending_events@),
            local_peer_id: self.local_peer_id@,
            num_connections: self.num_connections,
            allow_private_ip: self.allow_private_ip,
            discovery_only_if_under_num: self.discovery_only_if_under_num,
            allow_non_globals_in_dht: self.allow_non_globals_in_dht,
            known_external_addresses: address_set_items(self.known_external_addresses),
            kademlia_protocol: opt_string_view(self.kademlia_protocol),
            random_walk: self.random_walk,
            duration_to_next_kad: self.duration_to_next_kad,
            network: self.network,
        }
    }
}

impl DiscoveryBehaviour {
    /// The behaviour is well formed.
    pub closed spec fn wf(&self) -> bool {
        &&& self.ephemeral_addresses.wf()
        &&& self@.consistent()
    }

    /// A well-formed behaviour's state is consistent.
    pub proof fn lemma_consistent(&self)
        requires
            self.wf(),
        ensures
            self@.consistent(),
    {
    }

    /// A behaviour with no ephemeral addresses, no pending events, no
    /// connections and no known external addresses, whose next random walk
    /// follows one second after the first.
    pub(crate) fn new(
        permanent_addresses: Vec<(PeerId, Multiaddr)>,
        local_peer_id: PeerId,
        allow_private_ip: bool,
        discovery_only_if_under_num: u64,
        allow_non_globals_in_dht: bool,
        kademlia_protocol: Option<String>,
        random_walk: bool,
        network: Network,
    ) -> (b: DiscoveryBehaviour)
        ensures
            b.wf(),
            b@ == (DiscoveryState {
                permanent_addresses: permanent_view(permanent_addresses@),
                ephemeral_addresses: Map::empty(),
                pending_events: Seq::empty(),
                local_peer_id: local_peer_id@,
                num_connections: 0,
                allow_private_ip,
                discovery_only_if_under_num,
                allow_non_globals_in_dht,
                known_external_addresses: Seq::empty(),
                kademlia_protocol: opt_string_view(kademlia_protocol),
                random_walk,
                duration_to_next_kad: 1,
                network,
            }),
    {
        let b = DiscoveryBehaviour {
            permanent_addresses,
            ephemeral_addresses: KeyedMap::new(),
            pending_events: VecDeque::new(),
            local_peer_id,
            num_connections: 0,
            allow_private_ip,
            discovery_only_if_under_num,
            allow_non_globals_in_dht,
            known_external_addresses: new_address_set(),
            kademlia_protocol,
            random_walk,
            duration_to_next_kad: 1,
            network,
        };
        assert(b@.ephemeral_addresses =~= Map::empty());
        assert(b@.pending_events =~= Seq::empty());
        b
    }

    /// Returns the list of nodes that we know exist in the network: the
    /// distinct peers of the DHT's routing table, given as `bucket_entries`;
    /// none where the behaviour has no DHT.
    pub fn known_peers(&self, bucket_entries: Vec<PeerId>) -> (peers: Vec<PeerId>)
        ensures
            peers_view(peers@).no_duplicates(),
            self@.kademlia_enabled() ==> peers_view(peers@).to_set() == peers_view(
                bucket_entries@,
            ).to_set(),
            !self@.kademlia_enabled() ==> peers@.len() == 0,
    {
        let mut peers: Vec<PeerId> = Vec::new();
        if self.kademlia_protocol.is_none() {
            return peers;
        }
        let mut i: usize = 0;
        while i < bucket_entries.len()
            invariant
                i <= bucket_entries.len(),
                peers_view(peers@).no_duplicates(),
                peers_view(peers@).to_set() == peers_view(bucket_entries@.take(i as int)).to_set(),
            decreases bucket_entries.len() - i,
        {
            let ghost before = peers_view(peers@);
            let entry = &bucket_entries[i];
            let ghost taken = peers_view(bucket_entries@.take(i as int));
            assert(peers_view(bucket_entries@.take(i + 1)) =~= taken.push(entry@));
            proof {
                lemma_to_set_push(taken, entry@);
                lemma_to_set_push(before, entry@);
            }
            if !peer_list_contains(&peers, entry) {
                peers.push(entry.clone());
                assert(peers_view(peers@) =~= before.push(entry@));
                proof {
                    lemma_push_new_keeps_distinct(before, entry@);
                }
            } else {
                assert(before.to_set().contains(entry@));
                assert(before.to_set() =~= before.to_set().insert(entry@));
            }
            i = i + 1;
        }
        assert(bucket_entries@.take(i as int) =~= bucket_entries@);
        peers
    }

    /// Adds a hard-coded address for the given peer, that never expires.
    ///
    /// Where the peer already has the address, nothing changes. Otherwise the
    /// address joins the peer's list, a `Discovered` event for the peer is
    /// queued, and the DHT is asked to add the address where there is one and
    /// it accepts the address: non-global addresses go there only when
    /// allowed.
    pub fn add_known_address(&mut self, peer_id: PeerId, addr: Multiaddr) -> (request: Option<
        KademliaRequest,
    >)
        requires
            old(self).wf(),
        ensures
            final(self).wf(),
            addresses_for(old(self)@.ephemeral_addresses, peer_id@).contains(addr@) ==> {
                &&& final(self)@ == old(self)@
                &&& request is None
            },
            !addresses_for(old(self)@.ephemeral_addresses, peer_id@).contains(addr@) ==> {
                &&& final(self)@ == (DiscoveryState {
                    ephemeral_addresses: record_address(
                        old(self)@.ephemeral_addresses,
                        peer_id@,
                        addr@,
                    ),
                    pending_events: old(self)@.pending_events.push(
                        DiscoveryOutView::Discovered(peer_id@),
                    ),
                    ..old(self)@
                })
                &&& request_view(request) == (if old(self)@.kademlia_enabled() && old(
                    self,
                )@.dht_accepts(addr@) {
                    Some(KademliaRequestView::AddAddress { peer_id: peer_id@, addr: addr@ })
                } else {
                    None
                })
            },
    {
        let ghost old_state = self@;
        let added = record_in_book(&mut self.ephemeral_addresses, &peer_id, addr.clone());
        if !added {
            assert(self@ =~= old_state);
            return None;
        }
        proof {
            let book = old_state.ephemeral_addresses;
            let list = addresses_for(book, peer_id@);
            assert(record_address(book, peer_id@, addr@)[peer_id@] == list.push(addr@));
            if book.contains_key(peer_id@) {
                assert(list.no_duplicates());
            }
            lemma_push_new_keeps_distinct(list, addr@);
        }
        let ghost old_events = self.pending_events@;
        self.pending_events.push_back(DiscoveryOut::Discovered(peer_id.clone()));
        assert(events_view(self.pending_events@) =~= events_view(old_events).push(
            DiscoveryOutView::Discovered(peer_id@),
        ));
        if self.kademlia_protocol.is_some() && (self.allow_non_globals_in_dht || addr.can_add_to_dht()) {
            Some(KademliaRequest::AddAddress { peer_id, addr })
        } else {
            None
        }
    }

    /// Adds an address that a peer reported about itself through the
    /// identify protocol.
    ///
    /// The address joins the peer's list unless it is there already; no event
    /// is queued. The DHT is asked to add the address where there is one, the
    /// peer supports its protocol and the DHT accepts the address: non-global
    /// addresses go there only when allowed.
    pub fn add_self_reported_address(
        &mut self,
        peer_id: &PeerId,
        supported_protocols: &Vec<String>,
        addr: Multiaddr,
    ) -> (request: Option<KademliaRequest>)
        requires
            old(self).wf(),
        ensures
            final(self).wf(),
            final(self)@ == (DiscoveryState {
                ephemeral_addresses: record_address(
                    old(self)@.ephemeral_addresses,
                    peer_id@,
                    addr@,
                ),
                ..old(self)@
            }),
            request_view(request) == (if old(self)@.kademlia_enabled() && old(self)@.dht_accepts(addr@)
                && supported_protocols@.map_values(|p: String| p@).contains(
                old(self)@.kademlia_protocol->0,
            ) {
                Some(KademliaRequestView::AddAddress { peer_id: peer_id@, addr: addr@ })
            } else {
                None
            }),
    {
        let ghost old_state = self@;
        let mut request: Option<KademliaRequest> = None;
        match &self.kademlia_protocol {
            Some(protocol) => {
                let mut i: usize = 0;
                let mut supported = false;
                while i < supported_protocols.len()
                    invariant
                        i <= supported_protocols.len(),
                        supported == supported_protocols@.take(i as int).map_values(
                            |p: String| p@,
                        ).contains(protocol@),
                    decreases supported_protocols.len() - i,
                {
                    let ghost before = supported_protocols@.take(i as int).map_values(
                        |p: String| p@,
                    );
                    assert(supported_protocols@.take(i + 1).map_values(|p: String| p@)
                        =~= before.push(supported_protocols@[i as int]@));
                    proof {
                        lemma_contains_push(before, supported_protocols@[i as int]@, protocol@);
                    }
                    if supported_protocols[i] == *protocol {
                        supported = true;
                    }
                    i = i + 1;
                }
                assert(supported_protocols@.take(i as int) =~= supported_protocols@);
                if supported && (self.allow_non_globals_in_dht || addr.can_add_to_dht()) {
                    request = Some(
                        KademliaRequest::AddAddress { peer_id: peer_id.clone(), addr: addr.clone() },
                    );
                }
            },
            None => {},
        }
        let added = record_in_book(&mut self.ephemeral_addresses, peer_id, addr);
        proof {
            let book = old_state.ephemeral_addresses;
            let list = addresses_for(book, peer_id@);
            if added {
                assert(record_address(book, peer_id@, addr@)[peer_id@] == list.push(addr@));
                if book.contains_key(peer_id@) {
                    assert(list.no_duplicates());
                }
                lemma_push_new_keeps_distinct(list, addr@);
            }
        }
        assert(self@ =~= (DiscoveryState {
            ephemeral_addresses: record_address(old_state.ephemeral_addresses, peer_id@, addr@),
            ..old_state
        }));
        request
    }

    /// Start fetching a record from the DHT: the request for the DHT, where
    /// there is one.
    pub fn get_value(&self, key: Vec<u8>) -> (request: Option<KademliaRequest>)
        ensures
            request_view(request) == (if self@.kademlia_enabled() {
                Some(KademliaRequestView::GetRecord { key: key@ })
            } else {
                None
            }),
    {
        if self.kademlia_protocol.is_some() {
            Some(KademliaRequest::GetRecord { key })
        } else {
            None
        }
    }

    /// Start storing a record in the DHT: the request for the DHT, where
    /// there is one.
    pub fn put_value(&self, key: Vec<u8>, value: Vec<u8>) -> (request: Option<KademliaRequest>)
        ensures
            request_view(request) == (if self@.kademlia_enabled() {
                Some(KademliaRequestView::PutRecord { key: key@, value: value@ })
            } else {
                None
            }),
    {
        if self.kademlia_protocol.is_some() {
            Some(KademliaRequest::PutRecord { key, value })
        } else {
            None
        }
    }

    /// Bootstrap the Kademlia DHT: the request for the DHT, where there is
    /// one.
    pub fn bootstrap(&self) -> (request: Option<KademliaRequest>)
        ensures
            request_view(request) == (if self@.kademlia_enabled() {
                Some(KademliaRequestView::Bootstrap)
            } else {
                None
            }),
    {
        if self.kademlia_protocol.is_some() {
            Some(KademliaRequest::Bootstrap)
        } else {
            None
        }
    }

    /// Get addresses for a peer: its permanent addresses, then the ones it
    /// was seen at; private IPv4 addresses and the IPv6 loopback and
    /// unspecified addresses are left out unless private addresses are
    /// allowed.
    pub fn addresses_of_peer(&self, peer_id: &PeerId) -> (addresses: Vec<Multiaddr>)
        requires
            self.wf(),
        ensures
            addrs_view(addresses@) == reported_addresses(self@, peer_id@),
    {
        let ghost perm = permanent_view(self.permanent_addresses@);
        let mut addresses: Vec<Multiaddr> = Vec::new();
        let mut i: usize = 0;
        while i < self.permanent_addresses.len()
            invariant
                i <= self.permanent_addresses.len(),
                perm == permanent_view(self.permanent_addresses@),
                addrs_view(addresses@) == permanent_for(perm.take(i as int), peer_id@),
            decreases self.permanent_addresses.len() - i,
        {
            let ghost before = addrs_view(addresses@);
            let entry = &self.permanent_addresses[i];
            assert(perm.take(i + 1).drop_last() =~= perm.take(i as int));
            assert(perm.take(i + 1).last() == (entry.0@, entry.1@));
            if entry.0.same_as(peer_id) {
                addresses.push(entry.1.clone());
                assert(addrs_view(addresses@) =~= before.push(entry.1@));
            }
            i = i + 1;
        }
        assert(perm.take(i as int) =~= perm);
        let ghost from_perm = addrs_view(addresses@);
        let ghost eph = addresses_for(self@.ephemeral_addresses, peer_id@);
        match self.ephemeral_addresses.get(peer_id) {
            Some(list) => {
                let mut j: usize = 0;
                while j < list.len()
                    invariant
                        j <= list.len(),
                        addrs_view(addresses@) == from_perm + addrs_view(list@).take(j as int),
                    decreases list.len() - j,
                {
                    let ghost before = addrs_view(addresses@);
                    addresses.push(list[j].clone());
                    assert(addrs_view(addresses@) =~= before.push(list@[j as int]@));
                    assert(addrs_view(list@).take(j + 1) =~= addrs_view(list@).take(j as int).push(
                        list@[j as int]@,
                    ));
                    assert(addrs_view(addresses@) =~= from_perm + addrs_view(list@).take(j + 1));
                    j = j + 1;
                }
                assert(addrs_view(list@).take(j as int) =~= eph);
            },
            None => {
                assert(addrs_view(addresses@) =~= from_perm + eph);
            },
        }
        let ghost all = from_perm + eph;
        assert(addrs_view(addresses@) == all);
        if self.allow_private_ip {
            return addresses;
        }
        let ghost pred = private_ip_filter();
        let mut kept: Vec<Multiaddr> = Vec::new();
        let mut k: usize = 0;
        while k < addresses.len()
            invariant
                k <= addresses.len(),
                addrs_view(addresses@) == all,
                pred == private_ip_filter(),
                addrs_view(kept@) == all.take(k as int).filter(pred),
            decreases addresses.len() - k,
        {
            let ghost before = addrs_view(kept@);
            proof {
                lemma_filter_push(all.take(k as int), all[k as int], pred);
                assert(all.take(k + 1) =~= all.take(k as int).push(all[k as int]));
            }
            assert(all[k as int] == addresses@[k as int]@);
            if addresses[k].passes_private_ip_filter() {
                kept.push(addresses[k].clone());
                assert(addrs_view(kept@) =~= before.push(all[k as int]));
            }
            k = k + 1;
        }
        assert(all.take(k as int) =~= all);
        kept
    }

    /// Handle connection established event.
    pub fn on_connection_established(&mut self, _peer_id: PeerId)
        requires
            old(self).wf(),
            old(self)@.num_connections < u64::MAX,
        ensures
            final(self).wf(),
            final(self)@ == with_connection_opened(old(self)@),
    {
        self.num_connections = self.num_connections + 1;
    }

    /// Handle a failed dial to an address of a peer: the address leaves the
    /// peer's ephemeral addresses, and a peer with none left loses its entry.
    /// Permanent addresses never expire.
    pub fn on_dial_failure(&mut self, peer_id: &PeerId, addr: &Multiaddr)
        requires
            old(self).wf(),
        ensures
            final(self).wf(),
            final(self)@ == (DiscoveryState {
                ephemeral_addresses: forget_address(
                    old(self)@.ephemeral_addresses,
                    peer_id@,
                    addr@,
                ),
                ..old(self)@
            }),
    {
        let ghost old_book = self@.ephemeral_addresses;
        let ghost pred = differs_from(addr@);
        match self.ephemeral_addresses.remove(peer_id) {
            None => {
                assert(self.ephemeral_addresses.map() =~= old(self).ephemeral_addresses.map());
                assert(forget_address(old_book, peer_id@, addr@) == old_book);
                assert(self@ =~= old(self)@);
            },
            Some(list) => {
                let ghost all = addrs_view(list@);
                assert(all == old_book[peer_id@]);
                let mut kept: Vec<Multiaddr> = Vec::new();
                let mut i: usize = 0;
                while i < list.len()
                    invariant
                        i <= list.len(),
                        all == addrs_view(list@),
                        pred == differs_from(addr@),
                        addrs_view(kept@) == all.take(i as int).filter(pred),
                    decreases list.len() - i,
                {
                    let ghost before = addrs_view(kept@);
                    proof {
                        lemma_filter_push(all.take(i as int), all[i as int], pred);
                        assert(all.take(i + 1) =~= all.take(i as int).push(all[i as int]));
                    }
                    assert(all[i as int] == list@[i as int]@);
                    if !list[i].same_as(addr) {
                        kept.push(list[i].clone());
                        assert(addrs_view(kept@) =~= before.push(all[i as int]));
                    }
                    i = i + 1;
                }
                assert(all.take(i as int) =~= all);
                proof {
                    lemma_filter_keeps_distinct(all, pred);
                }
                if kept.len() > 0 {
                    let ghost k = addrs_view(kept@);
                    self.ephemeral_addresses.insert(peer_id.clone(), kept);
                    assert(book_view(self.ephemeral_addresses.map()) =~= old_book.insert(peer_id@, k));
                } else {
                    assert(book_view(self.ephemeral_addresses.map()) =~= old_book.remove(peer_id@));
                }
            },
        }
    }

    /// Sets the count of open connections, by which discovery pauses at its
    /// limit.
    pub fn set_num_connections(&mut self, count: u64)
        requires
            old(self).wf(),
        ensures
            final(self).wf(),
            final(self)@ == (DiscoveryState { num_connections: count, ..old(self)@ }),
    {
        self.num_connections = count;
    }

    /// Handle connection closed event: the count of connections drops by
    /// one, and never below zero.
    pub fn on_connection_closed(&mut self, _peer_id: PeerId)
        requires
            old(self).wf(),
        ensures
            final(self).wf(),
            final(self)@ == with_connection_closed(old(self)@),
    {
        if self.num_connections > 0 {
            self.num_connections = self.num_connections - 1;
        }
    }

    /// Handle external address confirmed event: the address becomes the most
    /// recent in the cache of known external addresses, and where the cache
    /// then holds more than its maximum, the least recently confirmed address
    /// leaves it; the result tells whether the address is new there.
    pub fn on_external_addr_confirmed(&mut self, addr: Multiaddr) -> (is_new: bool)
        requires
            old(self).wf(),
        ensures
            final(self).wf(),
            is_new == !old(self)@.known_external_addresses.contains(addr@),
            final(self)@ == (DiscoveryState {
                known_external_addresses: confirm_external_address(
                    old(self)@.known_external_addresses,
                    addr@,
                ),
                ..old(self)@
            }),
    {
        let ghost cache = self@.known_external_addresses;
        let ghost a = addr@;
        let is_new = address_set_insert(&mut self.known_external_addresses, addr);
        proof {
            lemma_external_address_cache(cache, a);
        }
        if address_set_len(&self.known_external_addresses) > MAX_KNOWN_EXTERNAL_ADDRESSES {
            let _ = address_set_pop_front(&mut self.known_external_addresses);
        }
        is_new
    }

    /// The cache of known external addresses, least recently confirmed first.
    pub fn known_external_addresses(&self) -> (addresses: Vec<Multiaddr>)
        ensures
            addrs_view(addresses@) == self@.known_external_addresses,
    {
        address_set_to_vec(&self.known_external_addresses)
    }

    /// The next event owed to the user, first queued first.
    pub fn next_pending_event(&mut self) -> (event: Option<DiscoveryOut>)
        requires
            old(self).wf(),
        ensures
            final(self).wf(),
            match event {
                Some(e) => {
                    &&& old(self)@.pending_events.len() > 0
                    &&& e@ == old(self)@.pending_events[0]
                    &&& final(self)@ == (DiscoveryState {
                        pending_events: old(self)@.pending_events.drop_first(),
                        ..old(self)@
                    })
                },
                None => {
                    &&& old(self)@.pending_events.len() == 0
                    &&& final(self)@ == old(self)@
                },
            },
    {
        let ghost old_events = self.pending_events@;
        let event = self.pending_events.pop_front();
        if event.is_some() {
            assert(events_view(self.pending_events@) =~= events_view(old_events).drop_first());
        } else {
            assert(events_view(self.pending_events@) =~= events_view(old_events));
        }
        event
    }

    /// Whether random walks on the DHT are scheduled; the first one starts at
    /// once.
    pub fn random_walk_enabled(&self) -> (enabled: bool)
        ensures
            enabled == self@.random_walk,
    {
        self.random_walk
    }

    /// The random-walk timer fired.
    ///
    /// Where fewer connections are open than the limit and there is a DHT, a
    /// query for the peers closest to a random identity starts and a
    /// `RandomKademliaStarted` event is queued. The timer is set again to the
    /// current pause, and the pause after it doubles, up to its maximum.
    pub fn on_random_walk_timer(&mut self) -> (step: RandomWalkStep)
        requires
            old(self).wf(),
        ensures
            final(self).wf(),
            step.next_delay_secs == old(self)@.duration_to_next_kad,
            old(self)@.under_discovery_limit() && old(self)@.kademlia_enabled() ==> {
                &&& request_view(step.request) == Some(KademliaRequestView::FindRandomClosestPeers)
                &&& final(self)@ == (DiscoveryState {
                    pending_events: old(self)@.pending_events.push(
                        DiscoveryOutView::RandomKademliaStarted,
                    ),
                    duration_to_next_kad: next_random_walk_delay(old(self)@.duration_to_next_kad),
                    ..old(self)@
                })
            },
            !(old(self)@.under_discovery_limit() && old(self)@.kademlia_enabled()) ==> {
                &&& step.request is None
                &&& final(self)@ == (DiscoveryState {
                    duration_to_next_kad: next_random_walk_delay(old(self)@.duration_to_next_kad),
                    ..old(self)@
                })
            },
    {
        let mut request: Option<KademliaRequest> = None;
        if self.num_connections < self.discovery_only_if_under_num && self.kademlia_protocol.is_some() {
            let ghost old_events = self.pending_events@;
            request = Some(KademliaRequest::FindRandomClosestPeers);
            self.pending_events.push_back(DiscoveryOut::RandomKademliaStarted);
            assert(events_view(self.pending_events@) =~= events_view(old_events).push(
                DiscoveryOutView::RandomKademliaStarted,
            ));
        }
        let delay = self.duration_to_next_kad;
        self.duration_to_next_kad = if delay < MAX_RANDOM_WALK_DELAY_SECS / 2 {
            delay * 2
        } else {
            MAX_RANDOM_WALK_DELAY_SECS
        };
        RandomWalkStep { request, next_delay_secs: delay }
    }

    /// The event that a progressed Kademlia query gives: found or missing
    /// closest peers, or a found or missing record; other progress gives
    /// none.
    pub fn kademlia_event(outcome: KademliaOutcome) -> (event: Option<DiscoveryOut>)
        ensures
            event == kademlia_event(outcome),
            (event matches Some(DiscoveryOut::ClosestPeersNotFound { .. })) ==> (outcome matches KademliaOutcome::ClosestPeers { peers: None, .. }),
    {
        match outcome {
            KademliaOutcome::ClosestPeers { key, peers, duration } => match peers {
                Some(peers) => Some(DiscoveryOut::ClosestPeersFound { key, peers, duration }),
                None => Some(DiscoveryOut::ClosestPeersNotFound { key, duration }),
            },
            KademliaOutcome::RecordFound { key, value, duration } => Some(
                DiscoveryOut::ValueFound { key, value, duration },
            ),
            KademliaOutcome::RecordNotFound { key, duration } => Some(
                DiscoveryOut::ValueNotFound { key, duration },
            ),
            KademliaOutcome::Other => None,
        }
    }

    /// mDNS discovered peers on the local network.
    ///
    /// Where as many connections are open as the limit, or more, the peers
    /// are ignored. Otherwise a `Discovered` event is queued for each, in
    /// order, and the first event owed is handed out.
    pub fn on_mdns_discovered(&mut self, peers: Vec<PeerId>) -> (event: Option<DiscoveryOut>)
        requires
            old(self).wf(),
        ensures
            final(self).wf(),
            !old(self)@.under_discovery_limit() ==> event is None && final(self)@ == old(self)@,
            old(self)@.under_discovery_limit() ==> {
                let queued = old(self)@.pending_events + peers_view(peers@).map_values(
                    |p: Seq<u8>| DiscoveryOutView::Discovered(p),
                );
                match event {
                    Some(e) => {
                        &&& queued.len() > 0
                        &&& e@ == queued[0]
                        &&& final(self)@ == (DiscoveryState {
                            pending_events: queued.drop_first(),
                            ..old(self)@
                        })
                    },
                    None => {
                        &&& queued.len() == 0
                        &&& final(self)@ == old(self)@
                    },
                }
            },
    {
        if self.num_connections >= self.discovery_only_if_under_num {
            return None;
        }
        let ghost old_events = events_view(self.pending_events@);
        let ghost discovered = peers_view(peers@).map_values(
            |p: Seq<u8>| DiscoveryOutView::Discovered(p),
        );
        let mut i: usize = 0;
        while i < peers.len()
            invariant
                i <= peers.len(),
                discovered == peers_view(peers@).map_values(
                    |p: Seq<u8>| DiscoveryOutView::Discovered(p),
                ),
                self.ephemeral_addresses.wf(),
                old(self)@.consistent(),
                self@ == (DiscoveryState {
                    pending_events: old_events + discovered.take(i as int),
                    ..old(self)@
                }),
            decreases peers.len() - i,
        {
            let ghost before = self.pending_events@;
            let peer = peers[i].clone();
            assert(discovered[i as int] == DiscoveryOutView::Discovered(peer@));
            self.pending_events.push_back(DiscoveryOut::Discovered(peer));
            assert(events_view(self.pending_events@) =~= events_view(before).push(
                DiscoveryOutView::Discovered(peers@[i as int]@),
            ));
            assert(discovered.take(i + 1) =~= discovered.take(i as int).push(discovered[i as int]));
            assert(events_view(self.pending_events@) =~= old_events + discovered.take(i + 1));
            i = i + 1;
        }
        assert(discovered.take(i as int) =~= discovered);
        self.next_pending_event()
    }

    /// The identity of the local node.
    pub fn local_peer_id(&self) -> (peer_id: &PeerId)
        ensures
            peer_id@ == self@.local_peer_id,
    {
        &self.local_peer_id
    }

    /// The number of connections open.
    pub fn num_connections(&self) -> (n: u64)
        ensures
            n == self@.num_connections,
    {
        self.num_connections
    }

    /// Whether non-global addresses may be inserted into the DHT.
    pub fn allows_non_globals_in_dht(&self) -> (allowed: bool)
        ensures
            allowed == self@.allow_non_globals_in_dht,
    {
        self.allow_non_globals_in_dht
    }

    /// The network this discovery operates on.
    pub fn network(&self) -> (network: Network)
        ensures
            network == self@.network,
    {
        self.network
    }
}

} // verus!
