//! The userspace TCP/IP implementation as seen from the stack.
//!
//! `smoltcp` keeps the sockets and speaks the protocols. Here stands what the
//! stack relies on: what a socket, a set of sockets and an interface hold, and
//! what each call does to that.

use vstd::prelude::*;

use smoltcp::iface::{Interface, SocketHandle, SocketSet};
use smoltcp::socket::{tcp, udp};
use smoltcp::wire::IpAddress;

use crate::addr::{IpAddr, Ipv4Addr, Ipv6Addr, SocketAddr};

verus! {

#[verifier::external_type_specification]
#[verifier::external_body]
pub struct ExSocketHandle(smoltcp::iface::SocketHandle);

#[verifier::external_type_specification]
#[verifier::external_body]
pub struct ExSocketSet<'a>(smoltcp::iface::SocketSet<'a>);

#[verifier::external_type_specification]
#[verifier::external_body]
pub struct ExInterface(smoltcp::iface::Interface);

#[verifier::external_type_specification]
#[verifier::external_body]
pub struct ExTcpSocket<'a>(smoltcp::socket::tcp::Socket<'a>);

#[verifier::external_type_specification]
#[verifier::external_body]
pub struct ExUdpSocket<'a>(smoltcp::socket::udp::Socket<'a>);

#[verifier::external_type_specification]
#[verifier::external_body]
pub struct ExIpAddress(smoltcp::wire::IpAddress);

/// The states of a TCP connection.
#[derive(Clone, Copy, Debug, PartialEq, Eq, Structural)]
pub enum TcpState {
    Closed,
    Listen,
    SynSent,
    SynReceived,
    Established,
    FinWait1,
    FinWait2,
    CloseWait,
    Closing,
    LastAck,
    TimeWait,
}

/// Why a socket refused to listen, to connect or to be bound.
#[derive(Clone, Copy, Debug, PartialEq, Eq, Structural)]
pub enum Refusal {
    InvalidState,
    Unaddressable,
}

/// Why a UDP socket did not take a packet.
#[derive(Clone, Copy, Debug, PartialEq, Eq, Structural)]
pub enum UdpSendRefusal {
    Unaddressable,
    BufferFull,
}

/// Why a UDP socket did not hand out a packet.
#[derive(Clone, Copy, Debug, PartialEq, Eq, Structural)]
pub enum UdpRecvRefusal {
    Exhausted,
    Truncated,
}

/// An address and a port, as a connection has them.
#[derive(Clone, Copy, Debug, PartialEq, Eq, Structural)]
pub struct Endpoint {
    pub ip: IpAddr,
    pub port: u16,
}

/// Where a socket takes traffic: one address or any, and a port.
#[derive(Clone, Copy, Debug, PartialEq, Eq, Structural)]
pub struct ListenEndpoint {
    pub ip: Option<IpAddr>,
    pub port: u16,
}

/// The two ends of a connection.
#[derive(Clone, Copy, Debug, PartialEq, Eq, Structural)]
pub struct Tuple {
    pub local: Endpoint,
    pub remote: Endpoint,
}

/// What a TCP socket holds.
#[verifier::ext_equal]
pub ghost struct TcpView {
    pub state: TcpState,
    /// Where it was told to listen.
    pub listening_on: ListenEndpoint,
    /// Local and remote end of its connection.
    pub tuple: Option<Tuple>,
    /// Bytes taken for sending and not acknowledged yet.
    pub outgoing: Seq<u8>,
    pub send_capacity: nat,
    /// Bytes received and not handed out yet.
    pub incoming: Seq<u8>,
    pub recv_capacity: nat,
    /// The far end has sent no more than it was last told that there is room
    /// for.
    pub in_window: bool,
    /// For how many microseconds the far end may be silent, if that is limited.
    pub timeout: Option<nat>,
}

/// The largest buffer whose positions a sequence number can tell apart.
pub const MAX_SEND_CAPACITY: usize = 0x7fff_ffff;

/// The far end has closed the connection, or it is over: nothing more will be
/// received.
pub open spec fn far_end_closed(state: TcpState) -> bool {
    ||| state == TcpState::CloseWait
    ||| state == TcpState::Closing
    ||| state == TcpState::LastAck
    ||| state == TcpState::TimeWait
    ||| state == TcpState::Closed
}

/// The socket has the ends that it had, and does not listen where it did not.
pub open spec fn ends_kept(before: TcpView, after: TcpView) -> bool {
    &&& after.tuple == before.tuple
    &&& after.listening_on == before.listening_on
    &&& after.state == TcpState::Listen ==> before.state == TcpState::Listen
}

impl TcpView {
    pub open spec fn is_open(self) -> bool {
        self.state != TcpState::Closed && self.state != TcpState::TimeWait
    }

    pub open spec fn may_send(self) -> bool {
        self.state == TcpState::Established || self.state == TcpState::CloseWait
    }

    pub open spec fn can_send(self) -> bool {
        self.may_send() && self.outgoing.len() < self.send_capacity
    }

    pub open spec fn may_recv(self) -> bool {
        ||| self.state == TcpState::Established
        ||| self.state == TcpState::FinWait1
        ||| self.state == TcpState::FinWait2
        ||| self.incoming.len() > 0
    }

    /// All has been received, and all of it was handed out.
    pub open spec fn at_end(self) -> bool {
        far_end_closed(self.state) && self.incoming.len() == 0
    }

    /// The socket can be asked when it wants to be polled: positions in its
    /// buffer are sequence numbers, the far end has kept to the window, and no
    /// moment is out of reach.
    pub open spec fn pollable(self) -> bool {
        self.send_capacity <= MAX_SEND_CAPACITY && self.in_window && self.timeout is None
    }

    /// How many bytes there is room for.
    pub open spec fn room(self) -> nat {
        if self.outgoing.len() <= self.send_capacity {
            (self.send_capacity - self.outgoing.len()) as nat
        } else {
            0
        }
    }

    /// How many of `len` bytes the socket takes.
    pub open spec fn taken(self, len: nat) -> nat {
        if self.room() < len {
            self.room()
        } else {
            len
        }
    }

    /// The socket with `data` taken for sending, as far as it has room.
    pub open spec fn sending(self, data: Seq<u8>) -> TcpView {
        TcpView { outgoing: self.outgoing + data.take(self.taken(data.len()) as int), ..self }
    }

    /// The socket without the first `len` received bytes.
    pub open spec fn handed_out(self, len: nat) -> TcpView {
        TcpView { incoming: self.incoming.skip(len as int), ..self }
    }

    /// The socket with its sending half closed.
    pub open spec fn closing(self) -> TcpView {
        TcpView {
            state: match self.state {
                TcpState::Listen | TcpState::SynSent => TcpState::Closed,
                TcpState::SynReceived | TcpState::Established => TcpState::FinWait1,
                TcpState::CloseWait => TcpState::LastAck,
                other => other,
            },
            ..self
        }
    }

    /// A socket that has not been used.
    pub open spec fn fresh(recv_capacity: nat, send_capacity: nat) -> TcpView {
        TcpView {
            state: TcpState::Closed,
            listening_on: ListenEndpoint { ip: None, port: 0 },
            tuple: None,
            outgoing: Seq::empty(),
            send_capacity,
            incoming: Seq::empty(),
            recv_capacity,
            in_window: true,
            timeout: None,
        }
    }

    /// The socket after it was told to listen.
    pub open spec fn listening(self, at: ListenEndpoint) -> TcpView {
        if self.is_open() {
            self
        } else {
            TcpView {
                state: TcpState::Listen,
                listening_on: at,
                timeout: self.timeout,
                ..TcpView::fresh(self.recv_capacity, self.send_capacity)
            }
        }
    }

    /// The answer to being told to listen.
    pub open spec fn listen_refusal(self, at: ListenEndpoint) -> Option<Refusal> {
        if at.port == 0 {
            Some(Refusal::Unaddressable)
        } else if self.is_open() && !(self.state == TcpState::Listen && self.listening_on == at) {
            Some(Refusal::InvalidState)
        } else {
            None
        }
    }

    /// The answer to being told to connect.
    pub open spec fn connect_refusal(self, local: Endpoint, remote: Endpoint) -> Option<Refusal> {
        if self.is_open() {
            Some(Refusal::InvalidState)
        } else if remote.port == 0 || remote.ip.is_unspecified() || local.port == 0
            || local.ip.is_unspecified() || (local.ip is V4) != (remote.ip is V4) {
            Some(Refusal::Unaddressable)
        } else {
            None
        }
    }

    /// The socket after it was told to connect.
    pub open spec fn connecting(self, local: Endpoint, remote: Endpoint) -> TcpView {
        TcpView {
            state: TcpState::SynSent,
            tuple: Some(Tuple { local, remote }),
            timeout: self.timeout,
            ..TcpView::fresh(self.recv_capacity, self.send_capacity)
        }
    }
}

/// A packet and the far end that it came from or goes to.
#[verifier::ext_equal]
pub ghost struct Packet {
    pub peer: Endpoint,
    pub data: Seq<u8>,
}

/// What a UDP socket holds.
#[verifier::ext_equal]
pub ghost struct UdpView {
    /// Where it was bound; port 0 if it was not.
    pub bound_to: ListenEndpoint,
    /// Packets taken for sending and not sent yet.
    pub outgoing: Seq<Packet>,
    /// The sizes of which a packet is taken at this moment.
    pub takes: Set<nat>,
    /// Packets received and not handed out yet.
    pub incoming: Seq<Packet>,
    /// The receiving queue has an entry. An entry can also be filler.
    pub has_entry: bool,
    /// How many packets a queue holds at most.
    pub slots: nat,
    /// How many bytes a queue holds at most.
    pub bytes: nat,
}

impl UdpView {
    /// The answer to being bound to `port`.
    pub open spec fn bind_refusal(self, port: u16) -> Option<Refusal> {
        if port == 0 {
            Some(Refusal::Unaddressable)
        } else if self.bound_to.port != 0 {
            Some(Refusal::InvalidState)
        } else {
            None
        }
    }

    /// The answer to being given a packet for `peer`.
    pub open spec fn send_refusal(self, peer: Endpoint, len: nat) -> Option<UdpSendRefusal> {
        if self.bound_to.port == 0 || peer.ip.is_unspecified() || peer.port == 0 {
            Some(UdpSendRefusal::Unaddressable)
        } else if !self.takes.contains(len) {
            Some(UdpSendRefusal::BufferFull)
        } else {
            None
        }
    }

    /// `next` is this socket but for the room in its queues.
    pub open spec fn alike(self, next: UdpView) -> bool {
        next == (UdpView { takes: next.takes, has_entry: next.has_entry, ..self })
    }

    /// A closed socket: not bound, nothing queued.
    pub open spec fn closed(self, next: UdpView) -> bool {
        &&& next.bound_to == (ListenEndpoint { ip: None, port: 0 })
        &&& next.outgoing == Seq::<Packet>::empty()
        &&& next.incoming == Seq::<Packet>::empty()
        &&& !next.has_entry
        &&& next.slots == self.slots
        &&& next.bytes == self.bytes
    }
}

/// What a set of sockets holds under one handle.
pub ghost enum SocketView {
    Tcp(TcpView),
    Udp(UdpView),
}

/// A route: packets for the subnet go to the gateway.
pub ghost struct RouteView {
    pub subnet: (IpAddr, u8),
    pub gateway: IpAddr,
}

/// What an interface is configured with.
#[verifier::ext_equal]
pub ghost struct IfaceView {
    /// Its addresses, in the order in which they were added.
    pub addrs: Seq<(IpAddr, u8)>,
    /// How many addresses it can have.
    pub addr_limit: nat,
    pub routes: Seq<RouteView>,
    /// How many routes it can have.
    pub route_limit: nat,
    pub any_ip: bool,
    /// The size of the largest IP packet that goes into a frame.
    pub ip_mtu: nat,
}

/// The smallest size of IP packets with which TCP works: the headers of IPv6 and
/// of TCP.
pub const MIN_IP_MTU: usize = 60;

impl IfaceView {
    /// The interface has no address that it cannot have, its gateways are single
    /// hosts, and its packets are large enough.
    pub open spec fn ok(self) -> bool {
        &&& self.addrs.len() <= self.addr_limit
        &&& forall|i: int|
            0 <= i < self.addrs.len() ==> assignable((#[trigger] self.addrs[i]).0)
                && self.addrs[i].1 <= self.addrs[i].0.max_prefix_len()
        &&& self.routes_ok()
        &&& self.ip_mtu >= MIN_IP_MTU
    }

    /// Every gateway is a single host.
    pub open spec fn routes_ok(self) -> bool {
        forall|i: int| 0 <= i < self.routes.len() ==> unicast((#[trigger] self.routes[i]).gateway)
    }
}

/// What a TCP socket holds.
pub uninterp spec fn tcp_view(socket: tcp::Socket<'_>) -> TcpView;

/// What a UDP socket holds.
pub uninterp spec fn udp_view(socket: udp::Socket<'_>) -> UdpView;

/// Every TCP socket can be asked when it wants to be polled.
pub open spec fn sockets_pollable(sockets: Map<SocketHandle, SocketView>) -> bool {
    forall|h: SocketHandle| #[trigger]
        sockets.contains_key(h) && sockets[h] is Tcp ==> sockets[h]->Tcp_0.pollable()
}

/// What a set of sockets holds.
pub uninterp spec fn sockets_view(set: SocketSet<'_>) -> Map<SocketHandle, SocketView>;

/// The set keeps its sockets in storage of its own, which grows as it needs to.
/// One over borrowed storage has room for only so many.
pub uninterp spec fn owns_storage(set: SocketSet<'_>) -> bool;

/// What an interface is configured with.
pub uninterp spec fn iface_view(iface: Interface) -> IfaceView;

/// The address that `smoltcp` writes in its own type.
pub uninterp spec fn ip_view(addr: IpAddress) -> IpAddr;

/// The end of a connection that `smoltcp` writes with its own address type.
pub open spec fn endpoint_view(endpoint: (IpAddress, u16)) -> Endpoint {
    Endpoint { ip: ip_view(endpoint.0), port: endpoint.1 }
}

/// One address or any.
pub open spec fn ip_view_option(addr: Option<IpAddress>) -> Option<IpAddr> {
    match addr {
        Some(ip) => Some(ip_view(ip)),
        None => None,
    }
}

/// When an interface wants to be polled again: in so many microseconds.
pub uninterp spec fn next_poll(iface: Interface, sockets: SocketSet<'_>, now: i64) -> Option<u64>;

/// An address that an interface can have: not a group of hosts.
pub open spec fn assignable(ip: IpAddr) -> bool {
    match ip {
        // 224.0.0.0/4 and the broadcast address
        IpAddr::V4(v4) => !(0xe000_0000 <= v4.bits < 0xf000_0000) && v4.bits != 0xffff_ffff,
        // ff00::/8
        IpAddr::V6(v6) => v6.bits < 0xff00_0000_0000_0000_0000_0000_0000_0000,
    }
}

/// Whether an interface can have this address.
pub fn is_assignable(ip: IpAddr) -> (yes: bool)
    ensures
        yes == assignable(ip),
{
    match ip {
        IpAddr::V4(v4) => !(0xe000_0000 <= v4.bits && v4.bits < 0xf000_0000) && v4.bits
            != 0xffff_ffff,
        IpAddr::V6(v6) => v6.bits < 0xff00_0000_0000_0000_0000_0000_0000_0000,
    }
}

/// The address of a single host.
pub open spec fn unicast(ip: IpAddr) -> bool {
    assignable(ip) && !ip.is_unspecified()
}

/// Whether this is the address of a single host.
pub fn is_unicast(ip: IpAddr) -> (yes: bool)
    ensures
        yes == unicast(ip),
{
    is_assignable(ip) && !ip.is_unspecified()
}

/// `smoltcp::wire::IpAddress` from an address of either family: the same
/// address.
#[verifier::external_body]
pub(crate) fn ip_addr_to_smoltcp(addr: IpAddr) -> (ip: IpAddress)
    ensures
        ip_view(ip) == addr,
{
    match addr {
        IpAddr::V4(v4) => IpAddress::Ipv4(smoltcp::wire::Ipv4Address::from(v4.bits)),
        IpAddr::V6(v6) => IpAddress::Ipv6(smoltcp::wire::Ipv6Address::from(v6.bits)),
    }
}

/// An address from `smoltcp::wire::IpAddress`: the same address.
#[verifier::external_body]
pub(crate) fn smoltcp_to_ip_addr(ip: IpAddress) -> (addr: IpAddr)
    ensures
        addr == ip_view(ip),
{
    match ip {
        IpAddress::Ipv4(v4) => IpAddr::V4(Ipv4Addr { bits: v4.to_bits() }),
        IpAddress::Ipv6(v6) => IpAddr::V6(Ipv6Addr { bits: v6.to_bits() }),
    }
}

/// The equality of `smoltcp::iface::SocketHandle`: two handles are equal if
/// they stand for the same place in a set.
#[verifier::external_body]
pub(crate) fn same_handle(a: SocketHandle, b: SocketHandle) -> (same: bool)
    ensures
        same == (a == b),
{
    a == b
}

/// `tcp::Socket::new` with buffers of these sizes: a closed socket that holds
/// nothing.
#[verifier::external_body]
pub(crate) fn tcp_new(recv_capacity: usize, send_capacity: usize) -> (socket: tcp::Socket<'static>)
    requires
        recv_capacity <= 0x4000_0000,
        send_capacity <= MAX_SEND_CAPACITY,
    ensures
        tcp_view(socket) == TcpView::fresh(recv_capacity as nat, send_capacity as nat),
{
    let rx_buffer = tcp::SocketBuffer::new(vec![0u8; recv_capacity]);
    let tx_buffer = tcp::SocketBuffer::new(vec![0u8; send_capacity]);
    tcp::Socket::new(rx_buffer, tx_buffer)
}

/// `tcp::Socket::listen`: refuses port 0 and a socket in use; a socket that
/// listens at the same place already stays as it is.
#[verifier::external_body]
pub(crate) fn tcp_listen(
    socket: &mut tcp::Socket<'static>,
    addr: Option<IpAddress>,
    port: u16,
) -> (result: Result<(), Refusal>)
    ensures
        ({
            let at = ListenEndpoint { ip: ip_view_option(addr), port };
            match tcp_view(*old(socket)).listen_refusal(at) {
                Some(refusal) => result is Err && result->Err_0 == refusal && tcp_view(*final(socket))
                    == tcp_view(*old(socket)),
                None => result is Ok && tcp_view(*final(socket)) == tcp_view(
                    *old(socket),
                ).listening(at),
            }
        }),
{
    let endpoint = smoltcp::wire::IpListenEndpoint { addr, port };
    socket.listen(endpoint).map_err(|e| match e {
        tcp::ListenError::InvalidState => Refusal::InvalidState,
        tcp::ListenError::Unaddressable => Refusal::Unaddressable,
    })
}

/// `tcp::Socket::connect` from a given local address: refuses a socket in use
/// and ends that cannot be connected; else the first packet of the handshake
/// is due. The interface lends its random numbers, its configuration stays.
#[verifier::external_body]
pub(crate) fn tcp_connect(
    socket: &mut tcp::Socket<'static>,
    iface: &mut Interface,
    local: (IpAddress, u16),
    remote: (IpAddress, u16),
) -> (result: Result<(), Refusal>)
    ensures
        iface_view(*final(iface)) == iface_view(*old(iface)),
        match tcp_view(*old(socket)).connect_refusal(endpoint_view(local), endpoint_view(remote)) {
            Some(refusal) => result is Err && result->Err_0 == refusal && tcp_view(*final(socket))
                == tcp_view(*old(socket)),
            None => result is Ok && tcp_view(*final(socket)) == tcp_view(*old(socket)).connecting(
                endpoint_view(local),
                endpoint_view(remote),
            ),
        },
{
    let local = smoltcp::wire::IpListenEndpoint { addr: Some(local.0), port: local.1 };
    let remote = smoltcp::wire::IpEndpoint::new(remote.0, remote.1);
    socket.connect(iface.context(), remote, local).map_err(|e| match e {
        tcp::ConnectError::InvalidState => Refusal::InvalidState,
        tcp::ConnectError::Unaddressable => Refusal::Unaddressable,
    })
}

/// `tcp::Socket::close`: closes the sending half.
#[verifier::external_body]
pub(crate) fn tcp_close(socket: &mut tcp::Socket<'static>)
    ensures
        tcp_view(*final(socket)) == tcp_view(*old(socket)).closing(),
{
    socket.close()
}

/// `tcp::Socket::state`.
#[verifier::external_body]
pub(crate) fn tcp_state(socket: &tcp::Socket<'static>) -> (state: TcpState)
    ensures
        state == tcp_view(*socket).state,
{
    match socket.state() {
        tcp::State::Closed => TcpState::Closed,
        tcp::State::Listen => TcpState::Listen,
        tcp::State::SynSent => TcpState::SynSent,
        tcp::State::SynReceived => TcpState::SynReceived,
        tcp::State::Established => TcpState::Established,
        tcp::State::FinWait1 => TcpState::FinWait1,
        tcp::State::FinWait2 => TcpState::FinWait2,
        tcp::State::CloseWait => TcpState::CloseWait,
        tcp::State::Closing => TcpState::Closing,
        tcp::State::LastAck => TcpState::LastAck,
        tcp::State::TimeWait => TcpState::TimeWait,
    }
}

/// `tcp::Socket::remote_endpoint`: the far end of the connection, if there is
/// one.
#[verifier::external_body]
pub(crate) fn tcp_remote_endpoint(socket: &tcp::Socket<'static>) -> (remote: Option<
    (IpAddress, u16),
>)
    ensures
        match tcp_view(*socket).tuple {
            Some(tuple) => remote is Some && endpoint_view(remote.unwrap()) == tuple.remote,
            None => remote is None,
        },
{
    socket.remote_endpoint().map(|e| (e.addr, e.port))
}

/// `tcp::Socket::local_endpoint`: the near end of the connection, if there is
/// one.
#[verifier::external_body]
pub(crate) fn tcp_local_endpoint(socket: &tcp::Socket<'static>) -> (local: Option<(IpAddress, u16)>)
    ensures
        match tcp_view(*socket).tuple {
            Some(tuple) => local is Some && endpoint_view(local.unwrap()) == tuple.local,
            None => local is None,
        },
{
    socket.local_endpoint().map(|e| (e.addr, e.port))
}

/// `tcp::Socket::may_send`: the sending half of the connection is open.
#[verifier::external_body]
pub(crate) fn tcp_may_send(socket: &tcp::Socket<'static>) -> (yes: bool)
    ensures
        yes == tcp_view(*socket).may_send(),
{
    socket.may_send()
}

/// `tcp::Socket::can_send`: open for sending, and the buffer is not full.
#[verifier::external_body]
pub(crate) fn tcp_can_send(socket: &tcp::Socket<'static>) -> (yes: bool)
    ensures
        yes == tcp_view(*socket).can_send(),
{
    socket.can_send()
}

/// `tcp::Socket::can_recv`: received bytes are waiting.
#[verifier::external_body]
pub(crate) fn tcp_can_recv(socket: &tcp::Socket<'static>) -> (yes: bool)
    ensures
        yes == (tcp_view(*socket).incoming.len() > 0),
{
    socket.can_recv()
}

/// `tcp::Socket::send_slice`: takes as many bytes as there is room for; a
/// socket that is not open for sending takes none and says so.
#[verifier::external_body]
pub(crate) fn tcp_send_slice(socket: &mut tcp::Socket<'static>, data: &[u8]) -> (result: Option<
    usize,
>)
    ensures
        tcp_view(*old(socket)).may_send() ==> result == Some(
            tcp_view(*old(socket)).taken(data@.len()) as usize,
        ) && tcp_view(*final(socket)) == tcp_view(*old(socket)).sending(data@),
        !tcp_view(*old(socket)).may_send() ==> result is None && tcp_view(*final(socket))
            == tcp_view(*old(socket)),
{
    socket.send_slice(data).ok()
}

/// `tcp::Socket::recv_slice`: moves received bytes to the start of `data`, as
/// many as there are and as fit.
#[verifier::external_body]
pub(crate) fn tcp_recv_slice(socket: &mut tcp::Socket<'static>, data: &mut Vec<u8>) -> (result:
    Option<usize>)
    ensures
        final(data)@.len() == old(data)@.len(),
        tcp_view(*old(socket)).may_recv() ==> ({
            let incoming = tcp_view(*old(socket)).incoming;
            let len = if incoming.len() < old(data)@.len() {
                incoming.len()
            } else {
                old(data)@.len()
            };
            &&& result == Some(len as usize)
            &&& final(data)@.take(len as int) == incoming.take(len as int)
            &&& tcp_view(*final(socket)) == tcp_view(*old(socket)).handed_out(len)
        }),
        !tcp_view(*old(socket)).may_recv() ==> result is None && tcp_view(*final(socket))
            == tcp_view(*old(socket)),
{
    socket.recv_slice(data).ok()
}

/// The sizes of which an empty queue for so many packets and bytes takes one.
pub open spec fn empty_queue_takes(slots: usize, bytes: usize) -> Set<nat> {
    Set::new(|len: nat| slots > 0 && len <= bytes)
}

/// `udp::Socket::new` with buffers for so many packets and bytes in each
/// direction: not bound, nothing queued, all of the buffers free.
#[verifier::external_body]
pub(crate) fn udp_new(slots: usize, bytes: usize) -> (socket: udp::Socket<'static>)
    requires
        slots <= 0xffff,
        bytes <= 0x7fff_ffff,
    ensures
        udp_view(socket).closed(udp_view(socket)),
        udp_view(socket).takes == empty_queue_takes(slots, bytes),
        udp_view(socket).slots == slots,
        udp_view(socket).bytes == bytes,
{
    let rx_slots = vec![udp::PacketMetadata::EMPTY; slots];
    let tx_slots = vec![udp::PacketMetadata::EMPTY; slots];
    let rx_buffer = udp::PacketBuffer::new(rx_slots, vec![0u8; bytes]);
    let tx_buffer = udp::PacketBuffer::new(tx_slots, vec![0u8; bytes]);
    udp::Socket::new(rx_buffer, tx_buffer)
}

/// `udp::Socket::bind`: refuses port 0 and a bound socket.
#[verifier::external_body]
pub(crate) fn udp_bind(
    socket: &mut udp::Socket<'static>,
    addr: Option<IpAddress>,
    port: u16,
) -> (result: Result<(), Refusal>)
    ensures
        ({
            let before = udp_view(*old(socket));
            match before.bind_refusal(port) {
                Some(refusal) => result is Err && result->Err_0 == refusal && udp_view(
                    *final(socket),
                ) == before,
                None => result is Ok && udp_view(*final(socket)) == (UdpView {
                    bound_to: ListenEndpoint { ip: ip_view_option(addr), port },
                    ..before
                }),
            }
        }),
{
    let endpoint = smoltcp::wire::IpListenEndpoint { addr, port };
    socket.bind(endpoint).map_err(|e| match e {
        udp::BindError::InvalidState => Refusal::InvalidState,
        udp::BindError::Unaddressable => Refusal::Unaddressable,
    })
}

/// `udp::Socket::close`: unbinds the socket and drops what is queued.
#[verifier::external_body]
pub(crate) fn udp_close(socket: &mut udp::Socket<'static>)
    ensures
        udp_view(*old(socket)).closed(udp_view(*final(socket))),
{
    socket.close()
}

/// `udp::Socket::can_send`: a packet can be queued, if only an empty one.
#[verifier::external_body]
pub(crate) fn udp_can_send(socket: &udp::Socket<'static>) -> (yes: bool)
    ensures
        yes == udp_view(*socket).takes.contains(0),
{
    socket.can_send()
}

/// `udp::Socket::can_recv`: the receiving queue has an entry, as it has
/// whenever there is a packet in it.
#[verifier::external_body]
pub(crate) fn udp_can_recv(socket: &udp::Socket<'static>) -> (yes: bool)
    ensures
        yes == udp_view(*socket).has_entry,
        udp_view(*socket).incoming.len() > 0 ==> yes,
{
    socket.can_recv()
}

/// `udp::Socket::send_slice`: queues the packet, or says why not. Which sizes
/// are taken afterwards is left open.
#[verifier::external_body]
pub(crate) fn udp_send_slice(
    socket: &mut udp::Socket<'static>,
    data: &[u8],
    peer: (IpAddress, u16),
) -> (result: Result<(), UdpSendRefusal>)
    ensures
        ({
            let before = udp_view(*old(socket));
            let peer = endpoint_view(peer);
            match before.send_refusal(peer, data@.len()) {
                Some(refusal) => result is Err && result->Err_0 == refusal && before.alike(
                    udp_view(*final(socket)),
                ),
                None => result is Ok && (UdpView {
                    outgoing: before.outgoing.push(Packet { peer, data: data@ }),
                    ..before
                }).alike(udp_view(*final(socket))),
            }
        }),
        udp_view(*final(socket)).has_entry == udp_view(*old(socket)).has_entry,
{
    let endpoint = smoltcp::wire::IpEndpoint::new(peer.0, peer.1);
    socket.send_slice(data, endpoint).map_err(|e| match e {
        udp::SendError::Unaddressable => UdpSendRefusal::Unaddressable,
        udp::SendError::BufferFull => UdpSendRefusal::BufferFull,
    })
}

/// `udp::Socket::recv_slice`: hands out the packet that came first. A packet
/// that does not fit into `data` is lost; where the queue has no packet, none
/// is handed out.
#[verifier::external_body]
pub(crate) fn udp_recv_slice(socket: &mut udp::Socket<'static>, data: &mut Vec<u8>) -> (result:
    Result<(usize, (IpAddress, u16)), UdpRecvRefusal>)
    ensures
        final(data)@.len() == old(data)@.len(),
        ({
            let before = udp_view(*old(socket));
            let after = udp_view(*final(socket));
            if before.incoming.len() == 0 {
                &&& result is Err && result->Err_0 == UdpRecvRefusal::Exhausted
                &&& before.alike(after)
                &&& !after.has_entry
            } else {
                let first = before.incoming[0];
                &&& (UdpView { incoming: before.incoming.skip(1), ..before }).alike(after)
                &&& if old(data)@.len() < first.data.len() {
                    result is Err && result->Err_0 == UdpRecvRefusal::Truncated
                } else {
                    &&& result is Ok
                    &&& result.unwrap().0 == first.data.len()
                    &&& endpoint_view(result.unwrap().1) == first.peer
                    &&& final(data)@.take(first.data.len() as int) == first.data
                }
            }
        }),
        udp_view(*final(socket)).takes == udp_view(*old(socket)).takes,
{
    socket.recv_slice(data).map(|(n, meta)| (n, (meta.endpoint.addr, meta.endpoint.port))).map_err(
        |e| match e {
            udp::RecvError::Exhausted => UdpRecvRefusal::Exhausted,
            udp::RecvError::Truncated => UdpRecvRefusal::Truncated,
        },
    )
}

/// `SocketSet::new` on an empty vector: an empty set, which owns its storage.
#[verifier::external_body]
pub(crate) fn sockets_new() -> (set: SocketSet<'static>)
    ensures
        sockets_view(set).dom() == Set::<SocketHandle>::empty(),
        owns_storage(set),
{
    SocketSet::new(Vec::new())
}

/// `SocketSet::add` of a TCP socket, on a set that owns its storage: the socket
/// stands under a handle that was not in use.
#[verifier::external_body]
pub(crate) fn sockets_add_tcp(set: &mut SocketSet<'static>, socket: tcp::Socket<'static>) -> (handle:
    SocketHandle)
    requires
        owns_storage(*old(set)),
    ensures
        !sockets_view(*old(set)).contains_key(handle),
        sockets_view(*final(set)) == sockets_view(*old(set)).insert(
            handle,
            SocketView::Tcp(tcp_view(socket)),
        ),
        owns_storage(*final(set)),
{
    set.add(socket)
}

/// `SocketSet::add` of a UDP socket, on a set that owns its storage: the socket
/// stands under a handle that was not in use.
#[verifier::external_body]
pub(crate) fn sockets_add_udp(set: &mut SocketSet<'static>, socket: udp::Socket<'static>) -> (handle:
    SocketHandle)
    requires
        owns_storage(*old(set)),
    ensures
        !sockets_view(*old(set)).contains_key(handle),
        sockets_view(*final(set)) == sockets_view(*old(set)).insert(
            handle,
            SocketView::Udp(udp_view(socket)),
        ),
        owns_storage(*final(set)),
{
    set.add(socket)
}

/// `SocketSet::get_mut` of a TCP socket: what is done to the socket is done to
/// the set's.
#[verifier::external_body]
pub(crate) fn sockets_get_tcp<'b>(
    set: &'b mut SocketSet<'static>,
    handle: SocketHandle,
) -> (socket: &'b mut tcp::Socket<'static>)
    requires
        sockets_view(*old(set)).contains_key(handle),
        sockets_view(*old(set))[handle] is Tcp,
    ensures
        SocketView::Tcp(tcp_view(*socket)) == sockets_view(*old(set))[handle],
        sockets_view(*final(set)) == sockets_view(*old(set)).insert(
            handle,
            SocketView::Tcp(tcp_view(*final(socket))),
        ),
        owns_storage(*final(set)) == owns_storage(*old(set)),
{
    set.get_mut::<tcp::Socket>(handle)
}

/// `SocketSet::get_mut` of a UDP socket: what is done to the socket is done to
/// the set's.
#[verifier::external_body]
pub(crate) fn sockets_get_udp<'b>(
    set: &'b mut SocketSet<'static>,
    handle: SocketHandle,
) -> (socket: &'b mut udp::Socket<'static>)
    requires
        sockets_view(*old(set)).contains_key(handle),
        sockets_view(*old(set))[handle] is Udp,
    ensures
        SocketView::Udp(udp_view(*socket)) == sockets_view(*old(set))[handle],
        sockets_view(*final(set)) == sockets_view(*old(set)).insert(
            handle,
            SocketView::Udp(udp_view(*final(socket))),
        ),
        owns_storage(*final(set)) == owns_storage(*old(set)),
{
    set.get_mut::<udp::Socket>(handle)
}

/// `SocketSet::remove`: the handle is free again.
#[verifier::external_body]
pub(crate) fn sockets_remove(set: &mut SocketSet<'static>, handle: SocketHandle)
    requires
        sockets_view(*old(set)).contains_key(handle),
    ensures
        sockets_view(*final(set)) == sockets_view(*old(set)).remove(handle),
        owns_storage(*final(set)) == owns_storage(*old(set)),
{
    set.remove(handle);
}

/// `SocketSet::iter`: the handles in use, and no others, each with whether a TCP
/// socket stands there.
#[verifier::external_body]
pub(crate) fn sockets_list(set: &SocketSet<'static>) -> (list: Vec<(SocketHandle, bool)>)
    ensures
        forall|i: int|
            0 <= i < list@.len() ==> sockets_view(*set).contains_key((#[trigger] list@[i]).0)
                && list@[i].1 == (sockets_view(*set)[list@[i].0] is Tcp),
        forall|handle: SocketHandle|
            #![trigger sockets_view(*set).contains_key(handle)]
            sockets_view(*set).contains_key(handle) ==> exists|i: int|
                0 <= i < list@.len() && (#[trigger] list@[i]).0 == handle,
{
    set.iter().map(|(handle, socket)| match socket {
        smoltcp::socket::Socket::Tcp(_) => (handle, true),
        smoltcp::socket::Socket::Udp(_) => (handle, false),
    }).collect()
}

/// `Interface::ip_addrs`: the addresses with their prefix lengths.
#[verifier::external_body]
pub(crate) fn iface_ip_addrs(iface: &Interface) -> (addrs: Vec<(IpAddress, u8)>)
    ensures
        addrs@.len() == iface_view(*iface).addrs.len(),
        forall|i: int|
            0 <= i < addrs@.len() ==> (ip_view((#[trigger] addrs@[i]).0), addrs@[i].1)
                == iface_view(*iface).addrs[i],
{
    iface.ip_addrs().iter().map(|cidr| (cidr.address(), cidr.prefix_len())).collect()
}

/// `Interface::update_ip_addrs`, pushing one address: `false` where the list is
/// full.
#[verifier::external_body]
pub(crate) fn iface_push_ip_addr(iface: &mut Interface, ip: IpAddress, prefix_len: u8) -> (ok: bool)
    requires
        assignable(ip_view(ip)),
        prefix_len <= ip_view(ip).max_prefix_len(),
        forall|i: int|
            0 <= i < iface_view(*old(iface)).addrs.len() ==> assignable(
                (#[trigger] iface_view(*old(iface)).addrs[i]).0,
            ),
    ensures
        ok == (iface_view(*old(iface)).addrs.len() < iface_view(*old(iface)).addr_limit),
        ok ==> iface_view(*final(iface)) == (IfaceView {
            addrs: iface_view(*old(iface)).addrs.push((ip_view(ip), prefix_len)),
            ..iface_view(*old(iface))
        }),
        !ok ==> iface_view(*final(iface)) == iface_view(*old(iface)),
{
    let mut ok = false;
    let cidr = smoltcp::wire::IpCidr::new(ip, prefix_len);
    iface.update_ip_addrs(|addrs| ok = addrs.push(cidr).is_ok());
    ok
}

/// `Interface::update_ip_addrs`, replacing the whole list.
#[verifier::external_body]
pub(crate) fn iface_set_ip_addrs(iface: &mut Interface, list: &Vec<(IpAddress, u8)>)
    requires
        list@.len() <= iface_view(*old(iface)).addr_limit,
        forall|i: int|
            0 <= i < list@.len() ==> assignable(ip_view((#[trigger] list@[i]).0)) && list@[i].1
                <= ip_view(list@[i].0).max_prefix_len(),
    ensures
        iface_view(*final(iface)) == (IfaceView {
            addrs: list@.map_values(|a: (IpAddress, u8)| (ip_view(a.0), a.1)),
            ..iface_view(*old(iface))
        }),
{
    iface.update_ip_addrs(
        |addrs|
            *addrs = list.iter().map(|&(ip, len)| smoltcp::wire::IpCidr::new(ip, len)).collect(),
    )
}

/// The table without the first route to `subnet`.
pub open spec fn without_route(routes: Seq<RouteView>, subnet: (IpAddr, u8)) -> Seq<RouteView>
    decreases routes.len(),
{
    if routes.len() == 0 {
        routes
    } else if routes[0].subnet == subnet {
        routes.skip(1)
    } else {
        seq![routes[0]] + without_route(routes.skip(1), subnet)
    }
}

/// The subnet of all addresses of a family.
pub open spec fn everything(ip: IpAddr) -> (IpAddr, u8) {
    match ip {
        IpAddr::V4(_) => (IpAddr::V4(Ipv4Addr { bits: 0 }), 0),
        IpAddr::V6(_) => (IpAddr::V6(Ipv6Addr { bits: 0 }), 0),
    }
}

/// The interface with its default route to `gateway`, as far as the table has
/// room.
pub open spec fn with_default_route(iface: IfaceView, gateway: IpAddr) -> IfaceView {
    let rest = without_route(iface.routes, everything(gateway));
    if rest.len() < iface.route_limit {
        IfaceView {
            routes: rest.push(RouteView { subnet: everything(gateway), gateway }),
            ..iface
        }
    } else {
        IfaceView { routes: rest, ..iface }
    }
}

/// A default route through a single host leaves only such routes.
pub(crate) proof fn lemma_routes_ok(iface: IfaceView, gateway: IpAddr)
    requires
        iface.routes_ok(),
        unicast(gateway),
    ensures
        with_default_route(iface, gateway).routes_ok(),
{
    lemma_without_route(iface.routes, everything(gateway));
}

proof fn lemma_without_route(routes: Seq<RouteView>, subnet: (IpAddr, u8))
    requires
        forall|i: int| 0 <= i < routes.len() ==> unicast((#[trigger] routes[i]).gateway),
    ensures
        ({
            let rest = without_route(routes, subnet);
            forall|i: int| 0 <= i < rest.len() ==> unicast((#[trigger] rest[i]).gateway)
        }),
    decreases routes.len(),
{
    if routes.len() > 0 {
        let tail = routes.skip(1);
        assert forall|i: int| 0 <= i < tail.len() implies unicast((#[trigger] tail[i]).gateway) by {
            assert(tail[i] == routes[i + 1]);
        }
        if routes[0].subnet != subnet {
            lemma_without_route(tail, subnet);
            let rest = without_route(tail, subnet);
            let all = without_route(routes, subnet);
            assert forall|i: int| 0 <= i < all.len() implies unicast(
                (#[trigger] all[i]).gateway,
            ) by {
                if i > 0 {
                    assert(all[i] == rest[i - 1]);
                }
            }
        }
    }
}

pub(crate) proof fn lemma_without_route_len(routes: Seq<RouteView>, subnet: (IpAddr, u8))
    ensures
        without_route(routes, subnet).len() <= routes.len(),
    decreases routes.len(),
{
    if routes.len() > 0 {
        lemma_without_route_len(routes.skip(1), subnet);
    }
}

/// `Routes::add_default_ipv4_route`: takes the place of an earlier default
/// route for IPv4; `false` where the table is full.
#[verifier::external_body]
pub(crate) fn iface_add_default_ipv4_route(iface: &mut Interface, gateway: Ipv4Addr) -> (ok: bool)
    ensures
        iface_view(*final(iface)) == with_default_route(
            iface_view(*old(iface)),
            IpAddr::V4(gateway),
        ),
        ok == (without_route(
            iface_view(*old(iface)).routes,
            everything(IpAddr::V4(gateway)),
        ).len() < iface_view(*old(iface)).route_limit),
{
    let gateway = smoltcp::wire::Ipv4Address::from(gateway.bits);
    iface.routes_mut().add_default_ipv4_route(gateway).is_ok()
}

/// `Routes::add_default_ipv6_route`: takes the place of an earlier default
/// route for IPv6; `false` where the table is full.
#[verifier::external_body]
pub(crate) fn iface_add_default_ipv6_route(iface: &mut Interface, gateway: Ipv6Addr) -> (ok: bool)
    ensures
        iface_view(*final(iface)) == with_default_route(
            iface_view(*old(iface)),
            IpAddr::V6(gateway),
        ),
        ok == (without_route(
            iface_view(*old(iface)).routes,
            everything(IpAddr::V6(gateway)),
        ).len() < iface_view(*old(iface)).route_limit),
{
    let gateway = smoltcp::wire::Ipv6Address::from(gateway.bits);
    iface.routes_mut().add_default_ipv6_route(gateway).is_ok()
}

/// `Interface::set_any_ip`.
#[verifier::external_body]
pub(crate) fn iface_set_any_ip(iface: &mut Interface, any_ip: bool)
    ensures
        iface_view(*final(iface)) == (IfaceView { any_ip, ..iface_view(*old(iface)) }),
{
    iface.set_any_ip(any_ip)
}

/// `Interface::poll_delay`: how long, in microseconds, until the interface
/// wants to be polled; `None` where it waits for a packet. Time does not go
/// below zero, the headers of TCP go into a packet, what is behind a gateway is
/// asked of a single host, and every TCP socket can be asked. The interface
/// remembers the time, its configuration stays.
#[verifier::external_body]
pub(crate) fn iface_poll_delay(iface: &mut Interface, sockets: &SocketSet<'static>, now: i64) -> (delay:
    Option<u64>)
    requires
        now >= 0,
        iface_view(*old(iface)).ip_mtu >= MIN_IP_MTU,
        iface_view(*old(iface)).routes_ok(),
        sockets_pollable(sockets_view(*sockets)),
    ensures
        delay == next_poll(*old(iface), *sockets, now),
        iface_view(*final(iface)) == iface_view(*old(iface)),
{
    iface.poll_delay(smoltcp::time::Instant::from_micros(now), sockets).map(|d| d.total_micros())
}

/// Where a packet for `addr` goes.
pub(crate) fn socket_addr_to_endpoint(addr: SocketAddr) -> (endpoint: (IpAddress, u16))
    ensures
        endpoint_view(endpoint) == (Endpoint { ip: addr.ip(), port: addr.port() }),
{
    (ip_addr_to_smoltcp(addr.ip()), addr.port())
}

/// The address of an end of a connection.
pub(crate) fn endpoint_to_socket_addr(endpoint: (IpAddress, u16)) -> (addr: SocketAddr)
    ensures
        addr == SocketAddr::spec_new(ip_view(endpoint.0), endpoint.1),
{
    make_socket_addr(smoltcp_to_ip_addr(endpoint.0), endpoint.1)
}

/// Where a socket bound to `addr` takes traffic: the unspecified address means
/// any.
pub open spec fn listen_endpoint(addr: SocketAddr) -> ListenEndpoint {
    listen_endpoint_with_port(addr, addr.spec_port())
}

pub open spec fn listen_endpoint_with_port(addr: SocketAddr, port: u16) -> ListenEndpoint {
    ListenEndpoint {
        ip: if addr.spec_ip().is_unspecified() {
            None
        } else {
            Some(addr.spec_ip())
        },
        port,
    }
}

/// The address part of `listen_endpoint`.
pub(crate) fn socket_addr_to_listen_ip(addr: SocketAddr) -> (ip: Option<IpAddress>)
    ensures
        ip_view_option(ip) == listen_endpoint(addr).ip,
{
    if addr.ip().is_unspecified() {
        None
    } else {
        Some(ip_addr_to_smoltcp(addr.ip()))
    }
}

/// An address with a port.
pub fn make_socket_addr(ip: IpAddr, port: u16) -> (addr: SocketAddr)
    ensures
        addr == SocketAddr::spec_new(ip, port),
{
    SocketAddr::new(ip, port)
}

/// An interface can have any address but those of groups and of all hosts; a single
/// host has neither of these, nor the unspecified address.
pub proof fn groups_are_told_from_hosts(ip: IpAddr, assignable: bool, unicast: bool)
    requires
        call_ensures(is_assignable, (ip,), assignable),
        call_ensures(is_unicast, (ip,), unicast),
    ensures
        match ip {
            IpAddr::V4(v4) => {
                &&& assignable <==> v4.bits / 0x1000_0000 != 14 && v4.bits != 0xffff_ffff
                &&& unicast <==> assignable && v4.bits != 0
            },
            IpAddr::V6(v6) => {
                &&& assignable <==> v6.bits / 0x100_0000_0000_0000_0000_0000_0000_0000 != 0xff
                &&& unicast <==> assignable && v6.bits != 0
            },
        },
{
}

/// An address with a port has both of them.
pub proof fn addresses_have_their_port(ip: IpAddr, port: u16, addr: SocketAddr)
    requires
        call_ensures(make_socket_addr, (ip, port), addr),
    ensures
        match addr {
            SocketAddr::V4(v4) => ip == IpAddr::V4(v4.ip) && v4.port == port,
            SocketAddr::V6(v6) => ip == IpAddr::V6(v6.ip) && v6.port == port,
        },
{
}

} // verus!
