//! Network addresses and peer identities as plain values.
//!
//! A `Multiaddr` is the sequence of its components; the components that the
//! discovery logic reads (IP addresses and TCP ports) are held as integers and
//! every other component is kept in its binary multiaddr encoding, so that an
//! address survives a round trip through this type unchanged.
use vstd::prelude::*;

verus! {

/// One component of a network address.
#[derive(Debug, PartialEq, Eq, Hash)]
pub enum Protocol {
    /// An IPv4 address, most significant octet first.
    Ip4(u32),
    /// An IPv6 address, most significant segment first.
    Ip6(u128),
    /// A TCP port.
    Tcp(u16),
    /// Any other component, in its binary multiaddr encoding.
    Other(Vec<u8>),
}

/// The mathematical value of a [`Protocol`].
pub enum ProtocolView {
    Ip4(u32),
    Ip6(u128),
    Tcp(u16),
    Other(Seq<u8>),
}

impl View for Protocol {
    type V = ProtocolView;

    open spec fn view(&self) -> ProtocolView {
        match self {
            Protocol::Ip4(ip) => ProtocolView::Ip4(*ip),
            Protocol::Ip6(ip) => ProtocolView::Ip6(*ip),
            Protocol::Tcp(port) => ProtocolView::Tcp(*port),
            Protocol::Other(bytes) => ProtocolView::Other(bytes@),
        }
    }
}

/// Copies a byte vector.
pub fn copy_bytes(bytes: &Vec<u8>) -> (copy: Vec<u8>)
    ensures
        copy@ == bytes@,
{
    let copy = bytes.clone();
    assert(copy@ =~= bytes@);
    copy
}

/// Whether two byte vectors hold the same bytes.
pub fn bytes_equal(a: &Vec<u8>, b: &Vec<u8>) -> (same: bool)
    ensures
        same == (a@ == b@),
{
    if a.len() != b.len() {
        return false;
    }
    let mut i: usize = 0;
    while i < a.len()
        invariant
            a.len() == b.len(),
            i <= a.len(),
            forall|j: int| 0 <= j < i ==> a@[j] == b@[j],
        decreases a.len() - i,
    {
        if a[i] != b[i] {
            return false;
        }
        i = i + 1;
    }
    assert(a@ =~= b@);
    true
}

impl Clone for Protocol {
    fn clone(&self) -> (copy: Self)
        ensures
            copy@ == self@,
    {
        match self {
            Protocol::Ip4(ip) => Protocol::Ip4(*ip),
            Protocol::Ip6(ip) => Protocol::Ip6(*ip),
            Protocol::Tcp(port) => Protocol::Tcp(*port),
            Protocol::Other(bytes) => Protocol::Other(copy_bytes(bytes)),
        }
    }
}

impl Protocol {
    /// Whether two components are the same.
    pub fn same_as(&self, other: &Protocol) -> (same: bool)
        ensures
            same == (self@ == other@),
    {
        match (self, other) {
            (Protocol::Ip4(a), Protocol::Ip4(b)) => *a == *b,
            (Protocol::Ip6(a), Protocol::Ip6(b)) => *a == *b,
            (Protocol::Tcp(a), Protocol::Tcp(b)) => *a == *b,
            (Protocol::Other(a), Protocol::Other(b)) => bytes_equal(a, b),
            _ => false,
        }
    }

    /// Whether this component may be reported when private addresses are
    /// not allowed: it is neither a private IPv4 address nor the IPv6
    /// loopback or unspecified address.
    pub fn passes_private_ip_filter(&self) -> (ok: bool)
        ensures
            ok == component_passes_private_ip_filter(self@),
    {
        match self {
            Protocol::Ip4(ip) => !ipv4_private(*ip),
            Protocol::Ip6(ip) => *ip != 1 && *ip != 0,
            _ => true,
        }
    }
}

/// The first octet of an IPv4 address.
pub open spec fn ipv4_octet0(ip: u32) -> int {
    ip as int / 0x100_0000
}

/// The second octet of an IPv4 address.
pub open spec fn ipv4_octet1(ip: u32) -> int {
    (ip as int / 0x1_0000) % 0x100
}

/// Whether an IPv4 address lies in one of the private ranges
/// 10.0.0.0/8, 172.16.0.0/12 and 192.168.0.0/16.
pub open spec fn ipv4_is_private(ip: u32) -> bool {
    ||| ipv4_octet0(ip) == 10
    ||| (ipv4_octet0(ip) == 172 && 16 <= ipv4_octet1(ip) < 32)
    ||| (ipv4_octet0(ip) == 192 && ipv4_octet1(ip) == 168)
}

/// Whether an IPv6 address is the loopback address `::1`.
pub open spec fn ipv6_is_loopback(ip: u128) -> bool {
    ip == 1
}

/// Whether an IPv6 address is the unspecified address `::`.
pub open spec fn ipv6_is_unspecified(ip: u128) -> bool {
    ip == 0
}

/// Whether a component may be reported when private addresses are not allowed.
pub open spec fn component_passes_private_ip_filter(p: ProtocolView) -> bool {
    match p {
        ProtocolView::Ip4(ip) => !ipv4_is_private(ip),
        ProtocolView::Ip6(ip) => !ipv6_is_loopback(ip) && !ipv6_is_unspecified(ip),
        _ => true,
    }
}

/// Whether an address may be reported when private addresses are not allowed:
/// every one of its components passes.
pub open spec fn passes_private_ip_filter(addr: Seq<ProtocolView>) -> bool {
    forall|i: int| 0 <= i < addr.len() ==> component_passes_private_ip_filter(#[trigger] addr[i])
}

/// An IPv4 address is private exactly when it lies in 10.0.0.0/8,
/// 172.16.0.0/12 or 192.168.0.0/16.
pub proof fn lemma_ipv4_private_ranges(ip: u32)
    ensures
        ipv4_is_private(ip) <==> (0x0a00_0000 <= ip < 0x0b00_0000 || 0xac10_0000 <= ip < 0xac20_0000
            || 0xc0a8_0000 <= ip < 0xc0a9_0000),
{
    let x = ip as int;
    assert(ipv4_octet0(ip) == 10 <==> 0x0a00_0000 <= x < 0x0b00_0000) by (nonlinear_arith)
        requires
            0 <= x < 0x1_0000_0000,
            ipv4_octet0(ip) == x / 0x100_0000,
    ;
    assert((ipv4_octet0(ip) == 172 && 16 <= ipv4_octet1(ip) < 32) <==> 0xac10_0000 <= x < 0xac20_0000) by (nonlinear_arith)
        requires
            0 <= x < 0x1_0000_0000,
            ipv4_octet0(ip) == x / 0x100_0000,
            ipv4_octet1(ip) == (x / 0x1_0000) % 0x100,
    ;
    assert((ipv4_octet0(ip) == 192 && ipv4_octet1(ip) == 168) <==> 0xc0a8_0000 <= x < 0xc0a9_0000) by (nonlinear_arith)
        requires
            0 <= x < 0x1_0000_0000,
            ipv4_octet0(ip) == x / 0x100_0000,
            ipv4_octet1(ip) == (x / 0x1_0000) % 0x100,
    ;
}

/// Whether an IPv4 address is private.
pub fn ipv4_private(ip: u32) -> (private: bool)
    ensures
        private == ipv4_is_private(ip),
{
    let first = ip / 0x100_0000;
    let second = (ip / 0x1_0000) % 0x100;
    first == 10 || (first == 172 && 16 <= second && second < 32) || (first == 192 && second == 168)
}

/// Whether an IPv4 address is globally reachable: it lies in none of the
/// special-purpose ranges 0.0.0.0/8, 10.0.0.0/8, 100.64.0.0/10 (shared),
/// 127.0.0.0/8 (loopback), 169.254.0.0/16 (link-local), 172.16.0.0/12,
/// 192.0.0.0/24 (but for 192.0.0.9 and 192.0.0.10), 192.0.2.0/24,
/// 192.168.0.0/16, 198.18.0.0/15 (benchmarking), 198.51.100.0/24,
/// 203.0.113.0/24 (documentation) and 240.0.0.0/4 (reserved and broadcast).
pub open spec fn ipv4_is_global(ip: u32) -> bool {
    &&& !(ip < 0x0100_0000)
    &&& !(0x0a00_0000 <= ip < 0x0b00_0000)
    &&& !(0x6440_0000 <= ip < 0x6480_0000)
    &&& !(0x7f00_0000 <= ip < 0x8000_0000)
    &&& !(0xa9fe_0000 <= ip < 0xa9ff_0000)
    &&& !(0xac10_0000 <= ip < 0xac20_0000)
    &&& !(0xc000_0000 <= ip < 0xc000_0100 && ip != 0xc000_0009 && ip != 0xc000_000a)
    &&& !(0xc000_0200 <= ip < 0xc000_0300)
    &&& !(0xc0a8_0000 <= ip < 0xc0a9_0000)
    &&& !(0xc612_0000 <= ip < 0xc614_0000)
    &&& !(0xc633_6400 <= ip < 0xc633_6500)
    &&& !(0xcb00_7100 <= ip < 0xcb00_7200)
    &&& !(0xf000_0000 <= ip)
}

/// Whether an IPv6 address is globally reachable: it lies in none of the
/// special-purpose ranges `::` (unspecified), `::1` (loopback),
/// `::ffff:0:0/96` (IPv4-mapped), `100::/64` (discard-only),
/// `2001:db8::/32` (documentation), `fc00::/7` (unique local) and
/// `fe80::/10` (link-local).
pub open spec fn ipv6_is_global(ip: u128) -> bool {
    &&& ip != 0
    &&& ip != 1
    &&& !(0xffff_0000_0000 <= ip < 0x1_0000_0000_0000)
    &&& !(0x0100_0000_0000_0000_0000_0000_0000_0000 <= ip < 0x0100_0000_0000_0001_0000_0000_0000_0000)
    &&& !(0x2001_0db8_0000_0000_0000_0000_0000_0000 <= ip < 0x2001_0db9_0000_0000_0000_0000_0000_0000)
    &&& !(0xfc00_0000_0000_0000_0000_0000_0000_0000 <= ip < 0xfe00_0000_0000_0000_0000_0000_0000_0000)
    &&& !(0xfe80_0000_0000_0000_0000_0000_0000_0000 <= ip < 0xfec0_0000_0000_0000_0000_0000_0000_0000)
}

/// Whether a component, in its binary multiaddr encoding, is a DNS name:
/// its protocol code is that of `dns`, `dns4`, `dns6` or `dnsaddr`
/// (53 to 56, each a one-byte code).
pub open spec fn is_dns_component(bytes: Seq<u8>) -> bool {
    bytes.len() > 0 && 53 <= bytes[0] <= 56
}

/// Whether an address may be put into the DHT when non-global addresses are
/// not allowed there: its first component is a globally reachable IP address
/// or a DNS name.
pub open spec fn can_add_to_dht(addr: Seq<ProtocolView>) -> bool {
    addr.len() > 0 && match addr[0] {
        ProtocolView::Ip4(ip) => ipv4_is_global(ip),
        ProtocolView::Ip6(ip) => ipv6_is_global(ip),
        ProtocolView::Other(bytes) => is_dns_component(bytes),
        ProtocolView::Tcp(_) => false,
    }
}

/// Whether an IPv4 address is globally reachable.
pub fn ipv4_global(ip: u32) -> (global: bool)
    ensures
        global == ipv4_is_global(ip),
{
    !(ip < 0x0100_0000) && !(0x0a00_0000 <= ip && ip < 0x0b00_0000) && !(0x6440_0000 <= ip && ip
        < 0x6480_0000) && !(0x7f00_0000 <= ip && ip < 0x8000_0000) && !(0xa9fe_0000 <= ip && ip
        < 0xa9ff_0000) && !(0xac10_0000 <= ip && ip < 0xac20_0000) && !(0xc000_0000 <= ip && ip
        < 0xc000_0100 && ip != 0xc000_0009 && ip != 0xc000_000a) && !(0xc000_0200 <= ip && ip
        < 0xc000_0300) && !(0xc0a8_0000 <= ip && ip < 0xc0a9_0000) && !(0xc612_0000 <= ip && ip
        < 0xc614_0000) && !(0xc633_6400 <= ip && ip < 0xc633_6500) && !(0xcb00_7100 <= ip && ip
        < 0xcb00_7200) && !(0xf000_0000 <= ip)
}

/// Whether an IPv6 address is globally reachable.
pub fn ipv6_global(ip: u128) -> (global: bool)
    ensures
        global == ipv6_is_global(ip),
{
    ip != 0 && ip != 1 && !(0xffff_0000_0000 <= ip && ip < 0x1_0000_0000_0000) && !(
    0x0100_0000_0000_0000_0000_0000_0000_0000 <= ip && ip
        < 0x0100_0000_0000_0001_0000_0000_0000_0000) && !(0x2001_0db8_0000_0000_0000_0000_0000_0000
        <= ip && ip < 0x2001_0db9_0000_0000_0000_0000_0000_0000) && !(
    0xfc00_0000_0000_0000_0000_0000_0000_0000 <= ip && ip
        < 0xfe00_0000_0000_0000_0000_0000_0000_0000) && !(0xfe80_0000_0000_0000_0000_0000_0000_0000
        <= ip && ip < 0xfec0_0000_0000_0000_0000_0000_0000_0000)
}

/// A network address: the sequence of its components.
#[derive(Debug, PartialEq, Eq, Hash)]
pub struct Multiaddr {
    parts: Vec<Protocol>,
}

impl View for Multiaddr {
    type V = Seq<ProtocolView>;

    closed spec fn view(&self) -> Seq<ProtocolView> {
        self.parts@.map_values(|p: Protocol| p@)
    }
}

/// The views of a sequence of components.
pub open spec fn parts_view(parts: Seq<Protocol>) -> Seq<ProtocolView> {
    parts.map_values(|p: Protocol| p@)
}

impl Clone for Multiaddr {
    fn clone(&self) -> (copy: Self)
        ensures
            copy@ == self@,
    {
        let parts = self.parts.clone();
        let copy = Multiaddr { parts };
        assert(copy@ =~= self@) by {
            assert forall|i: int| 0 <= i < self.parts.len() implies #[trigger] copy.parts@[i]@
                == self.parts@[i]@ by {
                assert(cloned::<Protocol>(self.parts[i], parts[i]));
            }
        }
        copy
    }
}

impl Multiaddr {
    /// The address with no components.
    pub fn empty() -> (addr: Multiaddr)
        ensures
            addr@ == Seq::<ProtocolView>::empty(),
    {
        let addr = Multiaddr { parts: Vec::new() };
        assert(addr@ =~= Seq::<ProtocolView>::empty());
        addr
    }

    /// The address made of the given components, in order.
    pub fn from_parts(parts: Vec<Protocol>) -> (addr: Multiaddr)
        ensures
            addr@ == parts_view(parts@),
    {
        Multiaddr { parts }
    }

    /// This address with one more component at its end.
    pub fn with(self, part: Protocol) -> (addr: Multiaddr)
        ensures
            addr@ == self@.push(part@),
    {
        let mut parts = self.parts;
        parts.push(part);
        let addr = Multiaddr { parts };
        assert(addr@ =~= self@.push(part@));
        addr
    }

    /// The components of this address, in order.
    pub fn parts(&self) -> (parts: &Vec<Protocol>)
        ensures
            parts_view(parts@) == self@,
    {
        &self.parts
    }

    /// Whether two addresses are the same.
    pub fn same_as(&self, other: &Multiaddr) -> (same: bool)
        ensures
            same == (self@ == other@),
    {
        if self.parts.len() != other.parts.len() {
            assert(self@.len() != other@.len());
            return false;
        }
        let mut i: usize = 0;
        while i < self.parts.len()
            invariant
                self.parts.len() == other.parts.len(),
                i <= self.parts.len(),
                forall|j: int| 0 <= j < i ==> self@[j] == other@[j],
            decreases self.parts.len() - i,
        {
            if !self.parts[i].same_as(&other.parts[i]) {
                assert(self@[i as int] != other@[i as int]);
                return false;
            }
            i = i + 1;
        }
        assert(self@ =~= other@);
        true
    }

    /// Whether this address may be put into the DHT when non-global
    /// addresses are not allowed there.
    pub fn can_add_to_dht(&self) -> (ok: bool)
        ensures
            ok == can_add_to_dht(self@),
    {
        if self.parts.len() == 0 {
            return false;
        }
        match &self.parts[0] {
            Protocol::Ip4(ip) => ipv4_global(*ip),
            Protocol::Ip6(ip) => ipv6_global(*ip),
            Protocol::Other(bytes) => bytes.len() > 0 && 53 <= bytes[0] && bytes[0] <= 56,
            Protocol::Tcp(_) => false,
        }
    }

    /// Whether this address may be reported when private addresses are not
    /// allowed.
    pub fn passes_private_ip_filter(&self) -> (ok: bool)
        ensures
            ok == passes_private_ip_filter(self@),
    {
        let mut i: usize = 0;
        while i < self.parts.len()
            invariant
                i <= self.parts.len(),
                forall|j: int| 0 <= j < i ==> component_passes_private_ip_filter(#[trigger] self@[j]),
            decreases self.parts.len() - i,
        {
            if !self.parts[i].passes_private_ip_filter() {
                assert(!component_passes_private_ip_filter(self@[i as int]));
                return false;
            }
            i = i + 1;
        }
        true
    }
}

/// The text notation that the multiaddr crate gives an address, such as
/// `/ip4/127.0.0.1/tcp/8080`; none where an `Other` component does not decode.
pub uninterp spec fn multiaddr_text(addr: Seq<ProtocolView>) -> Option<Seq<char>>;

/// The `Display` of the multiaddr crate's `Multiaddr`, on the address made of
/// the same components (an `Other` component decoded by `Multiaddr::try_from`
/// on its bytes); none where such a component does not decode.
#[verifier::external_body]
fn render_multiaddr(addr: &Multiaddr) -> (text: Option<String>)
    ensures
        match text {
            Some(t) => multiaddr_text(addr@) == Some(t@),
            None => multiaddr_text(addr@) is None,
        },
{
    let mut out = libp2p::Multiaddr::empty();
    for part in addr.parts.iter() {
        match part {
            Protocol::Ip4(ip) => out.push(libp2p::multiaddr::Protocol::Ip4((*ip).into())),
            Protocol::Ip6(ip) => out.push(libp2p::multiaddr::Protocol::Ip6((*ip).into())),
            Protocol::Tcp(port) => out.push(libp2p::multiaddr::Protocol::Tcp(*port)),
            Protocol::Other(bytes) => match libp2p::Multiaddr::try_from(bytes.clone()) {
                Ok(decoded) => decoded.iter().for_each(|p| out.push(p)),
                Err(_) => return None,
            },
        }
    }
    Some(out.to_string())
}

impl Multiaddr {
    /// The text notation of this address, such as `/ip4/127.0.0.1/tcp/8080`;
    /// none where one of its `Other` components does not decode.
    pub fn to_text(&self) -> (text: Option<String>)
        ensures
            match text {
                Some(t) => multiaddr_text(self@) == Some(t@),
                None => multiaddr_text(self@) is None,
            },
    {
        render_multiaddr(self)
    }
}

/// An IP address.
#[derive(Clone, Copy, Debug, PartialEq, Eq, Hash, Structural)]
pub enum IpAddress {
    V4(u32),
    V6(u128),
}

/// A socket address: an IP address and a TCP port.
#[derive(Clone, Copy, Debug, PartialEq, Eq, Hash, Structural)]
pub enum SocketAddress {
    V4 { ip: u32, port: u16 },
    V6 { ip: u128, port: u16 },
}

/// The address that reaches a socket address over TCP.
pub open spec fn socket_multiaddr(socket_addr: SocketAddress) -> Seq<ProtocolView> {
    match socket_addr {
        SocketAddress::V4 { ip, port } => seq![ProtocolView::Ip4(ip), ProtocolView::Tcp(port)],
        SocketAddress::V6 { ip, port } => seq![ProtocolView::Ip6(ip), ProtocolView::Tcp(port)],
    }
}

/// The last IP address among the components of an address.
pub open spec fn last_ip(addr: Seq<ProtocolView>) -> Option<IpAddress>
    decreases addr.len(),
{
    if addr.len() == 0 {
        None
    } else {
        match addr.last() {
            ProtocolView::Ip4(ip) => Some(IpAddress::V4(ip)),
            ProtocolView::Ip6(ip) => Some(IpAddress::V6(ip)),
            _ => last_ip(addr.drop_last()),
        }
    }
}

/// The last TCP port among the components of an address.
pub open spec fn last_tcp_port(addr: Seq<ProtocolView>) -> Option<u16>
    decreases addr.len(),
{
    if addr.len() == 0 {
        None
    } else {
        match addr.last() {
            ProtocolView::Tcp(port) => Some(port),
            _ => last_tcp_port(addr.drop_last()),
        }
    }
}

/// The socket address that an address names: its last IP address with its
/// last TCP port, where it has both.
pub open spec fn multiaddr_socket(addr: Seq<ProtocolView>) -> Option<SocketAddress> {
    match (last_ip(addr), last_tcp_port(addr)) {
        (Some(IpAddress::V4(ip)), Some(port)) => Some(SocketAddress::V4 { ip, port }),
        (Some(IpAddress::V6(ip)), Some(port)) => Some(SocketAddress::V6 { ip, port }),
        _ => None,
    }
}

/// The address that reaches a socket address over TCP.
pub fn socket_addr_to_multiaddr(socket_addr: SocketAddress) -> (addr: Multiaddr)
    ensures
        addr@ == socket_multiaddr(socket_addr),
{
    let addr = match socket_addr {
        SocketAddress::V4 { ip, port } => Multiaddr::empty().with(Protocol::Ip4(ip)).with(
            Protocol::Tcp(port),
        ),
        SocketAddress::V6 { ip, port } => Multiaddr::empty().with(Protocol::Ip6(ip)).with(
            Protocol::Tcp(port),
        ),
    };
    assert(addr@ =~= socket_multiaddr(socket_addr));
    addr
}

/// The socket address named by an address, if it has an IP address and a
/// TCP port; where it has several, the last of each counts.
pub fn multiaddr_to_socket_addr(addr: &Multiaddr) -> (socket_addr: Option<SocketAddress>)
    ensures
        socket_addr == multiaddr_socket(addr@),
{
    let parts = addr.parts();
    let ghost s = addr@;
    let mut ip: Option<IpAddress> = None;
    let mut port: Option<u16> = None;
    let mut i: usize = 0;
    while i < parts.len()
        invariant
            parts_view(parts@) == s,
            i <= parts.len(),
            ip == last_ip(s.take(i as int)),
            port == last_tcp_port(s.take(i as int)),
        decreases parts.len() - i,
    {
        assert(s.take(i + 1).drop_last() =~= s.take(i as int));
        assert(s.take(i + 1).last() == parts@[i as int]@);
        match &parts[i] {
            Protocol::Ip4(a) => {
                ip = Some(IpAddress::V4(*a));
            },
            Protocol::Ip6(a) => {
                ip = Some(IpAddress::V6(*a));
            },
            Protocol::Tcp(p) => {
                port = Some(*p);
            },
            Protocol::Other(_) => {},
        }
        i = i + 1;
    }
    assert(s.take(i as int) =~= s);
    match (ip, port) {
        (Some(IpAddress::V4(a)), Some(p)) => Some(SocketAddress::V4 { ip: a, port: p }),
        (Some(IpAddress::V6(a)), Some(p)) => Some(SocketAddress::V6 { ip: a, port: p }),
        _ => None,
    }
}

/// Turning a socket address into an address and back gives the socket
/// address again.
pub proof fn lemma_socket_addr_round_trip(socket_addr: SocketAddress)
    ensures
        multiaddr_socket(socket_multiaddr(socket_addr)) == Some(socket_addr),
{
    let s = socket_multiaddr(socket_addr);
    assert(s.drop_last() =~= seq![s[0]]);
    assert(seq![s[0]].drop_last() =~= Seq::<ProtocolView>::empty());
    reveal_with_fuel(last_ip, 3);
    reveal_with_fuel(last_tcp_port, 3);
}

/// The identity of a peer: its multihash bytes.
#[derive(Debug, PartialEq, Eq, Hash)]
pub struct PeerId {
    bytes: Vec<u8>,
}

impl View for PeerId {
    type V = Seq<u8>;

    closed spec fn view(&self) -> Seq<u8> {
        self.bytes@
    }
}

impl Clone for PeerId {
    fn clone(&self) -> (copy: Self)
        ensures
            copy@ == self@,
    {
        PeerId { bytes: copy_bytes(&self.bytes) }
    }
}

impl PeerId {
    /// The peer identity with the given multihash bytes.
    pub fn from_bytes(bytes: Vec<u8>) -> (peer: PeerId)
        ensures
            peer@ == bytes@,
    {
        PeerId { bytes }
    }

    /// The multihash bytes of this identity.
    pub fn to_bytes(&self) -> (bytes: Vec<u8>)
        ensures
            bytes@ == self@,
    {
        copy_bytes(&self.bytes)
    }

    /// Whether two identities are the same.
    pub fn same_as(&self, other: &PeerId) -> (same: bool)
        ensures
            same == (self@ == other@),
    {
        bytes_equal(&self.bytes, &other.bytes)
    }
}

} // verus!
