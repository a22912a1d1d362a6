//! Verified core of Neptune's peer discovery: configuration, the address
//! bookkeeping and decision logic of the discovery behaviour, and the
//! bookkeeping of the layers that sit between discovery and the node.
pub mod network;
pub mod address;
pub mod keyed_map;
pub mod external_addresses;
pub mod behaviour;
pub mod config;
pub mod integration;
pub mod node;
pub mod guesser;
