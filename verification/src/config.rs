//! Configuration of the discovery behaviour.
use vstd::prelude::*;
use crate::address::{Multiaddr, PeerId, ProtocolView};
use crate::behaviour::{
    opt_string_view, permanent_view, DiscoveryBehaviour, DiscoveryState,
};
use crate::network::{discovers_peers, network_id, Network};

verus! {

/// Default value for Kademlia replication factor.
pub const DEFAULT_KADEMLIA_REPLICATION_FACTOR: usize = 20;

/// Query timeout for Kademlia requests, in seconds.
pub const KAD_QUERY_TIMEOUT_SECS: u64 = 300;

/// Maximum number of provider keys that can be stored.
pub const KADEMLIA_MAX_PROVIDER_KEYS: usize = 1024;

/// TTL for provider records, in seconds: 24 hours.
pub const KADEMLIA_PROVIDER_RECORD_TTL_SECS: u64 = 24 * 60 * 60;

/// Republish interval for provider records, in seconds: 12 hours.
pub const KADEMLIA_PROVIDER_REPUBLISH_INTERVAL_SECS: u64 = 12 * 60 * 60;

/// The decimal digit of a number below ten.
pub open spec fn digit_char(d: nat) -> char {
    if d == 0 {
        '0'
    } else if d == 1 {
        '1'
    } else if d == 2 {
        '2'
    } else if d == 3 {
        '3'
    } else if d == 4 {
        '4'
    } else if d == 5 {
        '5'
    } else if d == 6 {
        '6'
    } else if d == 7 {
        '7'
    } else if d == 8 {
        '8'
    } else {
        '9'
    }
}

/// The decimal notation of a number, with no leading zeros.
pub open spec fn decimal(n: nat) -> Seq<char>
    decreases n,
{
    if n < 10 {
        seq![digit_char(n)]
    } else {
        decimal(n / 10).push(digit_char(n % 10))
    }
}

/// The Kademlia protocol name of a network: `/neptune/<id>/kad`.
pub open spec fn kademlia_protocol_text(network: Network) -> Seq<char> {
    seq!['/', 'n', 'e', 'p', 't', 'u', 'n', 'e', '/'] + decimal(network_id(network)) + seq![
        '/',
        'k',
        'a',
        'd',
    ]
}

/// The text of a decimal digit.
fn digit_str(d: u64) -> (s: &'static str)
    requires
        d < 10,
    ensures
        s@ == seq![digit_char(d as nat)],
{
    proof {
        reveal_strlit("0");
        reveal_strlit("1");
        reveal_strlit("2");
        reveal_strlit("3");
        reveal_strlit("4");
        reveal_strlit("5");
        reveal_strlit("6");
        reveal_strlit("7");
        reveal_strlit("8");
        reveal_strlit("9");
    }
    let s = if d == 0 {
        "0"
    } else if d == 1 {
        "1"
    } else if d == 2 {
        "2"
    } else if d == 3 {
        "3"
    } else if d == 4 {
        "4"
    } else if d == 5 {
        "5"
    } else if d == 6 {
        "6"
    } else if d == 7 {
        "7"
    } else if d == 8 {
        "8"
    } else {
        "9"
    };
    assert(s@ =~= seq![digit_char(d as nat)]);
    s
}

/// Appends the decimal notation of a number to a string.
fn append_decimal(s: &mut String, n: u64)
    ensures
        final(s)@ == old(s)@ + decimal(n as nat),
    decreases n,
{
    if n >= 10 {
        append_decimal(s, n / 10);
    }
    let ghost before = s@;
    s.append(digit_str(n % 10));
    proof {
        if n >= 10 {
            assert(s@ =~= old(s)@ + decimal(n as nat));
        } else {
            assert(s@ =~= old(s)@ + decimal(n as nat));
        }
    }
}

/// Generate Kademlia protocol name based on Neptune network.
pub fn kademlia_protocol_name(network: &Network) -> (name: String)
    ensures
        name@ == kademlia_protocol_text(*network),
{
    proof {
        reveal_strlit("/neptune/");
        reveal_strlit("/kad");
    }
    let mut name = String::from_str("/neptune/");
    append_decimal(&mut name, network.id());
    name.append("/kad");
    assert(name@ =~= kademlia_protocol_text(*network));
    name
}

/// The mathematical value of a [`DiscoveryConfig`].
pub struct ConfigState {
    pub local_peer_id: Seq<u8>,
    pub permanent_addresses: Seq<(Seq<u8>, Seq<ProtocolView>)>,
    pub dht_random_walk: bool,
    pub allow_private_ip: bool,
    pub allow_non_globals_in_dht: bool,
    pub discovery_only_if_under_num: u64,
    pub enable_mdns: bool,
    pub kademlia_disjoint_query_paths: bool,
    pub kademlia_protocol: Option<Seq<char>>,
    pub kademlia_replication_factor: usize,
    pub network: Network,
}

/// `DiscoveryBehaviour` configuration for Neptune Core.
pub struct DiscoveryConfig {
    local_peer_id: PeerId,
    permanent_addresses: Vec<(PeerId, Multiaddr)>,
    dht_random_walk: bool,
    allow_private_ip: bool,
    allow_non_globals_in_dht: bool,
    discovery_only_if_under_num: u64,
    enable_mdns: bool,
    kademlia_disjoint_query_paths: bool,
    kademlia_protocol: Option<String>,
    kademlia_replication_factor: usize,
    network: Network,
}

impl DiscoveryConfig {
    /// The replication factor is never zero.
    #[verifier::type_invariant]
    spec fn replication_factor_positive(&self) -> bool {
        self.kademlia_replication_factor > 0
    }
}

impl View for DiscoveryConfig {
    type V = ConfigState;

    closed spec fn view(&self) -> ConfigState {
        ConfigState {
            local_peer_id: self.local_peer_id@,
            permanent_addresses: permanent_view(self.permanent_addresses@),
            dht_random_walk: self.dht_random_walk,
            allow_private_ip: self.allow_private_ip,
            allow_non_globals_in_dht: self.allow_non_globals_in_dht,
            discovery_only_if_under_num: self.discovery_only_if_under_num,
            enable_mdns: self.enable_mdns,
            kademlia_disjoint_query_paths: self.kademlia_disjoint_query_paths,
            kademlia_protocol: opt_string_view(self.kademlia_protocol),
            kademlia_replication_factor: self.kademlia_replication_factor,
            network: self.network,
        }
    }
}

/// How the Kademlia DHT of a behaviour is to be set up.
pub struct KademliaSettings {
    /// The protocol name the DHT speaks.
    pub protocol: String,
    /// The replication factor.
    pub replication_factor: usize,
    /// Whether iterative queries use disjoint paths.
    pub disjoint_query_paths: bool,
    /// Query timeout, in seconds.
    pub query_timeout_secs: u64,
    /// TTL for provider records, in seconds.
    pub provider_record_ttl_secs: u64,
    /// Republish interval for provider records, in seconds.
    pub provider_publication_interval_secs: u64,
    /// Maximum number of provider keys the record store holds.
    pub max_provided_keys: usize,
    /// Whether incoming records and provider records are filtered before
    /// they are stored, rather than stored directly.
    pub filter_stored_records: bool,
    /// Whether peers join the routing table only when the behaviour adds
    /// them.
    pub manual_bucket_inserts: bool,
    /// Whether the DHT runs in server mode.
    pub server_mode: bool,
    /// Addresses added to the routing table at the start.
    pub bootstrap_addresses: Vec<(PeerId, Multiaddr)>,
}

/// What the network machinery of a finished behaviour is built from.
pub struct DiscoverySetup {
    /// The identity of the local node.
    pub local_peer_id: PeerId,
    /// How to set up the Kademlia DHT, where there is one.
    pub kademlia: Option<KademliaSettings>,
    /// Whether mDNS discovery is to be started.
    pub enable_mdns: bool,
    /// Seconds until the first random walk on the DHT, where random walks
    /// are enabled.
    pub first_random_walk_delay_secs: Option<u64>,
}

/// The settings of the Kademlia DHT that a configuration gives.
pub open spec fn kademlia_settings_for(c: ConfigState, s: KademliaSettings) -> bool {
    &&& c.kademlia_protocol == Some(s.protocol@)
    &&& s.replication_factor == c.kademlia_replication_factor
    &&& s.replication_factor > 0
    &&& s.disjoint_query_paths == c.kademlia_disjoint_query_paths
    &&& s.query_timeout_secs == KAD_QUERY_TIMEOUT_SECS
    &&& s.provider_record_ttl_secs == KADEMLIA_PROVIDER_RECORD_TTL_SECS
    &&& s.provider_publication_interval_secs == KADEMLIA_PROVIDER_REPUBLISH_INTERVAL_SECS
    &&& s.max_provided_keys == KADEMLIA_MAX_PROVIDER_KEYS
    &&& s.filter_stored_records
    &&& s.manual_bucket_inserts
    &&& s.server_mode
    &&& permanent_view(s.bootstrap_addresses@) == c.permanent_addresses
}

/// Copies a list of peers with their addresses.
fn copy_permanent(list: &Vec<(PeerId, Multiaddr)>) -> (copy: Vec<(PeerId, Multiaddr)>)
    ensures
        permanent_view(copy@) == permanent_view(list@),
{
    let mut copy: Vec<(PeerId, Multiaddr)> = Vec::new();
    let mut i: usize = 0;
    while i < list.len()
        invariant
            i <= list.len(),
            permanent_view(copy@) == permanent_view(list@).take(i as int),
        decreases list.len() - i,
    {
        let ghost before = copy@;
        let entry = &list[i];
        copy.push((entry.0.clone(), entry.1.clone()));
        assert(permanent_view(copy@) =~= permanent_view(before).push((entry.0@, entry.1@)));
        assert(permanent_view(list@).take(i + 1) =~= permanent_view(list@).take(i as int).push(
            (entry.0@, entry.1@),
        ));
        i = i + 1;
    }
    assert(permanent_view(list@).take(i as int) =~= permanent_view(list@));
    copy
}

impl DiscoveryConfig {
    /// Create a default configuration with the given peer ID and network.
    pub fn new(local_peer_id: PeerId, network: Network) -> (config: Self)
        ensures
            config@ == (ConfigState {
                local_peer_id: local_peer_id@,
                permanent_addresses: Seq::empty(),
                dht_random_walk: true,
                allow_private_ip: true,
                allow_non_globals_in_dht: false,
                discovery_only_if_under_num: u64::MAX,
                enable_mdns: discovers_peers(network),
                kademlia_disjoint_query_paths: false,
                kademlia_protocol: None,
                kademlia_replication_factor: DEFAULT_KADEMLIA_REPLICATION_FACTOR,
                network,
            }),
    {
        let config = DiscoveryConfig {
            local_peer_id,
            permanent_addresses: Vec::new(),
            dht_random_walk: true,
            allow_private_ip: true,
            allow_non_globals_in_dht: false,
            discovery_only_if_under_num: u64::MAX,
            enable_mdns: network.performs_peer_discovery(),
            kademlia_disjoint_query_paths: false,
            kademlia_protocol: None,
            kademlia_replication_factor: DEFAULT_KADEMLIA_REPLICATION_FACTOR,
            network,
        };
        assert(config@.permanent_addresses =~= Seq::empty());
        config
    }

    /// Set the number of active connections at which we pause discovery.
    pub fn discovery_limit(&mut self, limit: u64) -> (this: &mut Self)
        ensures
            this@ == (ConfigState { discovery_only_if_under_num: limit, ..old(self)@ }),
            *final(self) == *final(this),
    {
        proof {
            use_type_invariant(&*self);
        }
        self.discovery_only_if_under_num = limit;
        self
    }

    /// Set custom nodes which never expire, e.g. bootstrap or reserved nodes;
    /// they join the end of the list.
    pub fn with_permanent_addresses(&mut self, permanent_addresses: Vec<(PeerId, Multiaddr)>) -> (this: &mut Self)
        ensures
            this@ == (ConfigState {
                permanent_addresses: old(self)@.permanent_addresses + permanent_view(
                    permanent_addresses@,
                ),
                ..old(self)@
            }),
            *final(self) == *final(this),
    {
        proof {
            use_type_invariant(&*self);
        }
        let mut added = permanent_addresses;
        let ghost extra = added@;
        let mut list = copy_permanent(&self.permanent_addresses);
        let ghost before = list@;
        list.append(&mut added);
        assert(permanent_view(list@) =~= permanent_view(before) + permanent_view(extra));
        self.permanent_addresses = list;
        self
    }

    /// Whether the discovery behaviour should periodically perform a random
    /// walk on the DHT to discover peers.
    pub fn with_dht_random_walk(&mut self, value: bool) -> (this: &mut Self)
        ensures
            this@ == (ConfigState { dht_random_walk: value, ..old(self)@ }),
            *final(self) == *final(this),
    {
        proof {
            use_type_invariant(&*self);
        }
        self.dht_random_walk = value;
        self
    }

    /// Should private IPv4/IPv6 addresses be reported?
    pub fn allow_private_ip(&mut self, value: bool) -> (this: &mut Self)
        ensures
            this@ == (ConfigState { allow_private_ip: value, ..old(self)@ }),
            *final(self) == *final(this),
    {
        proof {
            use_type_invariant(&*self);
        }
        self.allow_private_ip = value;
        self
    }

    /// Should non-global addresses be inserted to the DHT?
    pub fn allow_non_globals_in_dht(&mut self, value: bool) -> (this: &mut Self)
        ensures
            this@ == (ConfigState { allow_non_globals_in_dht: value, ..old(self)@ }),
            *final(self) == *final(this),
    {
        proof {
            use_type_invariant(&*self);
        }
        self.allow_non_globals_in_dht = value;
        self
    }

    /// Should MDNS discovery be supported?
    pub fn with_mdns(&mut self, value: bool) -> (this: &mut Self)
        ensures
            this@ == (ConfigState { enable_mdns: value, ..old(self)@ }),
            *final(self) == *final(this),
    {
        proof {
            use_type_invariant(&*self);
        }
        self.enable_mdns = value;
        self
    }

    /// Add discovery via Kademlia for the given network.
    pub fn with_kademlia(&mut self) -> (this: &mut Self)
        ensures
            this@ == (ConfigState {
                kademlia_protocol: Some(kademlia_protocol_text(old(self)@.network)),
                ..old(self)@
            }),
            *final(self) == *final(this),
    {
        proof {
            use_type_invariant(&*self);
        }
        self.kademlia_protocol = Some(kademlia_protocol_name(&self.network));
        self
    }

    /// Require iterative Kademlia DHT queries to use disjoint paths.
    pub fn use_kademlia_disjoint_query_paths(&mut self, value: bool) -> (this: &mut Self)
        ensures
            this@ == (ConfigState { kademlia_disjoint_query_paths: value, ..old(self)@ }),
            *final(self) == *final(this),
    {
        proof {
            use_type_invariant(&*self);
        }
        self.kademlia_disjoint_query_paths = value;
        self
    }

    /// Sets Kademlia replication factor, which is never zero.
    pub fn with_kademlia_replication_factor(&mut self, value: usize) -> (this: &mut Self)
        requires
            value > 0,
        ensures
            this@ == (ConfigState { kademlia_replication_factor: value, ..old(self)@ }),
            *final(self) == *final(this),
    {
        proof {
            use_type_invariant(&*self);
        }
        self.kademlia_replication_factor = value;
        self
    }

    /// The identity of the local node.
    pub fn local_peer_id(&self) -> (peer_id: &PeerId)
        ensures
            peer_id@ == self@.local_peer_id,
    {
        &self.local_peer_id
    }

    /// The network the configuration is for.
    pub fn network(&self) -> (network: Network)
        ensures
            network == self@.network,
    {
        self.network
    }

    /// Whether mDNS discovery is enabled.
    pub fn mdns_enabled(&self) -> (enabled: bool)
        ensures
            enabled == self@.enable_mdns,
    {
        self.enable_mdns
    }

    /// Create a `DiscoveryBehaviour` from this config, with what its DHT and
    /// mDNS are to be built from.
    ///
    /// The behaviour starts with the permanent addresses, no other address,
    /// no event, no connection, and a random walk at once (after no delay)
    /// where random walks are enabled, with a pause of one second after it. There is a DHT where Kademlia was added; it starts with
    /// the permanent addresses in its routing table.
    pub fn finish(self) -> (result: (DiscoveryBehaviour, DiscoverySetup))
        ensures
            result.0.wf(),
            result.0@ == (DiscoveryState {
                permanent_addresses: self@.permanent_addresses,
                ephemeral_addresses: Map::empty(),
                pending_events: Seq::empty(),
                local_peer_id: self@.local_peer_id,
                num_connections: 0,
                allow_private_ip: self@.allow_private_ip,
                discovery_only_if_under_num: self@.discovery_only_if_under_num,
                allow_non_globals_in_dht: self@.allow_non_globals_in_dht,
                known_external_addresses: Seq::empty(),
                kademlia_protocol: self@.kademlia_protocol,
                random_walk: self@.dht_random_walk,
                duration_to_next_kad: 1,
                network: self@.network,
            }),
            result.1.local_peer_id@ == self@.local_peer_id,
            result.1.enable_mdns == self@.enable_mdns,
            result.1.first_random_walk_delay_secs == (if self@.dht_random_walk {
                Some(0u64)
            } else {
                None
            }),
            match result.1.kademlia {
                Some(settings) => kademlia_settings_for(self@, settings),
                None => self@.kademlia_protocol is None,
            },
    {
        proof {
            use_type_invariant(&self);
        }
        let kademlia = match &self.kademlia_protocol {
            Some(protocol) => Some(
                KademliaSettings {
                    protocol: protocol.clone(),
                    replication_factor: self.kademlia_replication_factor,
                    disjoint_query_paths: self.kademlia_disjoint_query_paths,
                    query_timeout_secs: KAD_QUERY_TIMEOUT_SECS,
                    provider_record_ttl_secs: KADEMLIA_PROVIDER_RECORD_TTL_SECS,
                    provider_publication_interval_secs: KADEMLIA_PROVIDER_REPUBLISH_INTERVAL_SECS,
                    max_provided_keys: KADEMLIA_MAX_PROVIDER_KEYS,
                    filter_stored_records: true,
                    manual_bucket_inserts: true,
                    server_mode: true,
                    bootstrap_addresses: copy_permanent(&self.permanent_addresses),
                },
            ),
            None => None,
        };
        let setup = DiscoverySetup {
            local_peer_id: self.local_peer_id.clone(),
            kademlia,
            enable_mdns: self.enable_mdns,
            first_random_walk_delay_secs: if self.dht_random_walk { Some(0) } else { None },
        };
        let behaviour = DiscoveryBehaviour::new(
            self.permanent_addresses,
            self.local_peer_id,
            self.allow_private_ip,
            self.discovery_only_if_under_num,
            self.allow_non_globals_in_dht,
            self.kademlia_protocol,
            self.dht_random_walk,
            self.network,
        );
        (behaviour, setup)
    }
}

} // verus!
