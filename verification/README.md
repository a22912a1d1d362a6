# neptune_discovery

Peer discovery for Neptune nodes, with its decisions and bookkeeping proved
by Verus.

- `src/` is the verified library:
  - `network.rs`: the Neptune networks, their identifiers and whether they
    discover peers;
  - `address.rs`: addresses, peer identities and socket addresses as plain
    values, the private-address filter, and the socket-address conversions;
  - `keyed_map.rs`: a finite map keyed by value, used for every table keyed
    by a peer or a socket address;
  - `external_addresses.rs`: the trusted interface to `linked_hash_set`,
    which caches the node's confirmed external addresses;
  - `config.rs`: the discovery configuration, its builder and `finish`;
  - `behaviour.rs`: the decision core of the discovery behaviour, with the
    laws it keeps;
  - `integration.rs`: the manager's view of known peers and the events and
    commands exchanged with the main loop;
  - `node.rs`: the node's record of discovered peers and connection attempts;
  - `guesser.rs`: who receives a block's guesser fee.
- `app/` holds what runs on the network: the libp2p `NetworkBehaviour` that
  drives the Kademlia DHT, mDNS and the random-walk timer around the verified
  core, the task that owns the swarm, and the node's end of the channels.
- `tests/` exercises the library on concrete values.
