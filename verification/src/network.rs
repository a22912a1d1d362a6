//! The Neptune networks a node can run on.
use vstd::prelude::*;

verus! {

/// The Neptune network a node operates on.
#[derive(Clone, Copy, Debug, PartialEq, Eq, Structural)]
pub enum Network {
    /// The main network.
    Main,
    /// The public test network with mock proofs.
    TestnetMock,
    /// The local regression-test network.
    RegTest,
    /// A numbered public test network.
    Testnet(u8),
}

/// The numeric identifier of a network, as used in protocol names.
pub open spec fn network_id(network: Network) -> nat {
    match network {
        Network::Main => 0,
        Network::TestnetMock => 1,
        Network::RegTest => 2,
        Network::Testnet(n) => (3 + n) as nat,
    }
}

/// Whether nodes on a network look for peers on their own.
pub open spec fn discovers_peers(network: Network) -> bool {
    !(network is RegTest)
}

impl Network {
    /// The numeric identifier of this network.
    pub fn id(&self) -> (id: u64)
        ensures
            id == network_id(*self),
    {
        match self {
            Network::Main => 0,
            Network::TestnetMock => 1,
            Network::RegTest => 2,
            Network::Testnet(n) => 3 + *n as u64,
        }
    }

    /// Whether nodes on this network perform peer discovery.
    pub fn performs_peer_discovery(&self) -> (b: bool)
        ensures
            b == discovers_peers(*self),
    {
        match self {
            Network::RegTest => false,
            _ => true,
        }
    }
}

/// Distinct networks have distinct identifiers.
pub proof fn lemma_network_id_injective(a: Network, b: Network)
    ensures
        network_id(a) == network_id(b) <==> a == b,
{
}

} // verus!
