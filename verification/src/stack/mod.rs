//! The socket stack.
//!
//! `Stack` holds the interface, the sockets and what is waiting for them. It
//! carries out the commands of the socket handles, moves data between the
//! channels and the sockets, and answers what was waiting once the sockets have
//! moved on. Whoever owns it polls the interface and delivers the answers.

use vstd::prelude::*;

use smoltcp::iface::{Interface, SocketHandle, SocketSet};
use std::sync::Arc;
use tokio::sync::Notify;

use crate::addr::{IpAddr, SocketAddr};
use crate::error::Error;

pub mod channels;
pub mod data;
pub mod handle_map;
pub mod handlers;
pub mod laws;
pub mod net;
pub mod promises;
pub mod rounds;

pub use channels::{TcpChannels, UdpChannels};

use channels::{TcpSocketState, UdpSocketState};
use handle_map::HandleMap;
use net::{Endpoint, SocketView, TcpState, TcpView};

verus! {

/// Starting port number for ephemeral port allocation.
///
/// Per IANA, the dynamic/ephemeral port range is 49152-65535.
pub const EPHEMERAL_PORT_START: u16 = 49152;

/// How many ephemeral ports there are.
pub const EPHEMERAL_PORT_COUNT: u32 = 16384;

/// Hands out local ports of the ephemeral range, one after the other.
#[derive(Debug)]
pub struct EphemeralPorts {
    next: u16,
}

/// The ephemeral port after `port`; after the last comes the first.
pub open spec fn next_port(port: u16) -> u16 {
    if port == u16::MAX {
        EPHEMERAL_PORT_START
    } else {
        (port + 1) as u16
    }
}

impl EphemeralPorts {
    #[verifier::type_invariant]
    spec fn in_range(&self) -> bool {
        self.next >= EPHEMERAL_PORT_START
    }

    /// The port that comes next.
    pub closed spec fn next(&self) -> u16 {
        self.next
    }

    pub fn new() -> (ports: EphemeralPorts)
        ensures
            ports.next() == EPHEMERAL_PORT_START,
    {
        EphemeralPorts { next: EPHEMERAL_PORT_START }
    }

    /// The next port.
    pub fn allocate(&mut self) -> (port: u16)
        ensures
            port == old(self).next(),
            port >= EPHEMERAL_PORT_START,
            final(self).next() == next_port(old(self).next()),
    {
        proof {
            use_type_invariant(&*self);
        }
        let port: u16 = self.next;
        self.next = if port == u16::MAX {
            EPHEMERAL_PORT_START
        } else {
            port + 1
        };
        port
    }
}

/// Configuration for the network stack.
#[derive(Clone, Copy, Debug)]
pub struct StackConfig {
    pub mac: [u8; 6],
    pub ip: IpAddr,
    pub prefix_len: u8,
    pub gateway: IpAddr,
}

/// A TCP connection that is ready for use.
pub struct Connected {
    pub handle: SocketHandle,
    pub local: SocketAddr,
    pub peer: SocketAddr,
    pub channels: TcpChannels,
}

/// A TCP listener that is ready for use.
#[derive(Clone, Copy, Debug)]
pub struct Listening {
    pub handle: SocketHandle,
    pub addr: SocketAddr,
}

/// A UDP socket that is ready for use.
pub struct Bound {
    pub handle: SocketHandle,
    pub addr: SocketAddr,
    pub channels: UdpChannels,
}

/// The answer to whoever waits behind `response`.
pub struct Completion<R> {
    /// The socket or listener that was waited for.
    pub handle: Option<SocketHandle>,
    pub response: R,
    pub result: Result<Connected, Error>,
}

/// Commands sent from async socket handles to the stack task. Behind an `R`
/// someone waits for a connection.
pub enum StackCommand<R> {
    /// Create a TCP socket and initiate connection.
    TcpConnect {
        /// Optional local IP to bind the socket to. If None, uses the default (config.ip).
        local_ip: Option<IpAddr>,
        addr: SocketAddr,
        response: R,
    },
    /// Create a TCP listener and bind to the given address.
    TcpListen { addr: SocketAddr, backlog: usize },
    /// Accept an incoming connection on a TCP listener.
    TcpAccept { handle: SocketHandle, response: R },
    /// Close a TCP listener and all its pending sockets.
    TcpListenerClose { handle: SocketHandle },
    /// Close a TCP socket.
    TcpClose { handle: SocketHandle },
    /// Bind a UDP socket.
    UdpBind { addr: SocketAddr },
    /// Close a UDP socket.
    UdpClose { handle: SocketHandle },
    /// Add an IP address to the interface.
    AddIp { ip: IpAddr, prefix_len: u8 },
    /// Remove an IP address from the interface.
    RemoveIp { ip: IpAddr },
    /// Get all IP addresses on the interface.
    GetIps,
}

/// What a command is answered with at once.
pub enum Reply<R> {
    /// Nothing: the command wants no answer, or its answer comes later.
    Nothing,
    Tcp(Completion<R>),
    Listening(Result<Listening, Error>),
    Bound(Result<Bound, Error>),
    Ip(Result<(), Error>),
    Ips(Vec<(IpAddr, u8)>),
}

/// Pending operations waiting for socket state changes.
pub enum PendingOp<R> {
    TcpConnect {
        local_addr: SocketAddr,
        peer_addr: SocketAddr,
        channels: TcpChannels,
        response: R,
    },
    TcpAccept { response: R },
}

/// State for a TCP listener managing multiple listening sockets for backlog.
pub struct ListenerState {
    /// The address this listener is bound to.
    pub addr: SocketAddr,
    /// Sockets that listen, or have a connection that was not accepted yet.
    pub listening_handles: Vec<SocketHandle>,
}

/// The interface, its sockets, and what is waiting for them.
pub struct Stack<R> {
    pub iface: Interface,
    pub sockets: SocketSet<'static>,
    pub config: StackConfig,
    pub pending: HandleMap<PendingOp<R>>,
    pub listeners: HandleMap<ListenerState>,
    pub tcp_states: HandleMap<TcpSocketState>,
    pub udp_states: HandleMap<UdpSocketState>,
    /// Signals that data was written to any socket's channel.
    pub write_notify: Arc<Notify>,
}

/// A TCP socket stands under `handle`.
pub open spec fn is_tcp(sockets: Map<SocketHandle, SocketView>, handle: SocketHandle) -> bool {
    sockets.contains_key(handle) && sockets[handle] is Tcp
}

/// A UDP socket stands under `handle`.
pub open spec fn is_udp(sockets: Map<SocketHandle, SocketView>, handle: SocketHandle) -> bool {
    sockets.contains_key(handle) && sockets[handle] is Udp
}

/// Where the socket listens, it does so at this address: at its port, and at its
/// IP address or, where that is unspecified, at any.
pub open spec fn listens_at(socket: TcpView, addr: SocketAddr) -> bool {
    socket.state == TcpState::Listen ==> match addr {
        SocketAddr::V4(v4) => {
            &&& socket.listening_on.port == v4.port
            &&& socket.listening_on.ip == if v4.ip.bits == 0 {
                None
            } else {
                Some(IpAddr::V4(v4.ip))
            }
        },
        SocketAddr::V6(v6) => {
            &&& socket.listening_on.port == v6.port
            &&& socket.listening_on.ip == if v6.ip.bits == 0 {
                None
            } else {
                Some(IpAddr::V6(v6.ip))
            }
        },
    }
}

/// The end of a connection has the address and the port of `addr`.
pub open spec fn is_end(end: Endpoint, addr: SocketAddr) -> bool {
    match addr {
        SocketAddr::V4(v4) => end.ip == IpAddr::V4(v4.ip) && end.port == v4.port,
        SocketAddr::V6(v6) => end.ip == IpAddr::V6(v6.ip) && end.port == v6.port,
    }
}

/// What whoever waits for a connection will be told are the two ends that its
/// socket has.
pub open spec fn own_ends<R>(op: PendingOp<R>, socket: TcpView) -> bool {
    op matches PendingOp::TcpConnect { local_addr, peer_addr, .. } ==> (
    socket.tuple matches Some(tuple) ==> is_end(tuple.local, local_addr) && is_end(
        tuple.remote,
        peer_addr,
    ))
}

/// A listener's sockets are TCP sockets that nobody else has, none twice, those
/// that listen do so at its address, and it has a port.
pub open spec fn listener_ok(
    listener: ListenerState,
    sockets: Map<SocketHandle, SocketView>,
    tcp_states: Map<SocketHandle, TcpSocketState>,
) -> bool {
    &&& listener.addr.spec_port() != 0
    &&& listener.listening_handles@.no_duplicates()
    &&& forall|i: int|
        0 <= i < listener.listening_handles@.len() ==> is_tcp(
            sockets,
            #[trigger] listener.listening_handles@[i],
        ) && !tcp_states.contains_key(listener.listening_handles@[i]) && listens_at(
            sockets[listener.listening_handles@[i]]->Tcp_0,
            listener.addr,
        )
}

/// What is kept for whoever waits for a connection are the far ends of the
/// channels of its socket.
pub open spec fn own_channels<R>(op: PendingOp<R>, state: TcpSocketState) -> bool {
    op matches PendingOp::TcpConnect { channels, .. } ==> channels::paired(channels, state)
}

/// The reader was told of the end only where nothing more will come.
pub open spec fn ended_in_time(socket: SocketView, state: TcpSocketState) -> bool {
    state.read_tx is None ==> net::far_end_closed(socket->Tcp_0.state)
}

/// Two listeners have different ports and no socket in common.
pub open spec fn apart(a: ListenerState, b: ListenerState) -> bool {
    &&& a.addr.spec_port() != b.addr.spec_port()
    &&& forall|i: int, j: int|
        0 <= i < a.listening_handles@.len() && 0 <= j < b.listening_handles@.len() ==> (
        #[trigger] a.listening_handles@[i]) != (#[trigger] b.listening_handles@[j])
}

impl<R> Stack<R> {
    /// What the sockets hold.
    pub open spec fn socks(&self) -> Map<SocketHandle, SocketView> {
        net::sockets_view(self.sockets)
    }

    /// What is kept for a handle is kept for a socket of the right kind, whoever
    /// waits for a connection is kept the ends and the channels of its socket, no
    /// reader was told of the end before it came, the listeners listen at their
    /// address and do not get in each other's way nor in that of sockets that
    /// connect, and
    /// the interface has no address that it cannot have. There is always room for
    /// another socket.
    pub open spec fn wf(&self) -> bool {
        &&& self.pending.wf()
        &&& self.listeners.wf()
        &&& self.tcp_states.wf()
        &&& self.udp_states.wf()
        &&& forall|h: SocketHandle| #[trigger]
            self.pending@.contains_key(h) ==> is_tcp(self.socks(), h) && own_ends(
                self.pending@[h],
                self.socks()[h]->Tcp_0,
            )
        &&& forall|h: SocketHandle| #[trigger]
            self.tcp_states@.contains_key(h) ==> is_tcp(self.socks(), h)
        &&& forall|h: SocketHandle| #[trigger]
            self.tcp_states@.contains_key(h) ==> ended_in_time(self.socks()[h], self.tcp_states@[h])
        &&& forall|h: SocketHandle| #[trigger]
            self.pending@.contains_key(h) && self.tcp_states@.contains_key(h) ==> own_channels(
                self.pending@[h],
                self.tcp_states@[h],
            )
        &&& forall|h: SocketHandle| #[trigger]
            self.udp_states@.contains_key(h) ==> is_udp(self.socks(), h)
                && self.udp_states@[h].read_tx is Some
        &&& forall|h: SocketHandle| #[trigger]
            self.listeners@.contains_key(h) ==> is_tcp(self.socks(), h) && listener_ok(
                self.listeners@[h],
                self.socks(),
                self.tcp_states@,
            )
        &&& forall|h: SocketHandle, g: SocketHandle| #[trigger]
            self.listeners@.contains_key(h) && #[trigger] self.pending@.contains_key(g)
                && self.pending@[g] is TcpConnect ==> !self.listeners@[h].listening_handles@.contains(
                g,
            )
        &&& forall|a: SocketHandle, b: SocketHandle| #[trigger]
            self.listeners@.contains_key(a) && #[trigger] self.listeners@.contains_key(b) && a != b
                ==> apart(self.listeners@[a], self.listeners@[b])
        &&& self.iface_ok()
        &&& net::sockets_pollable(self.socks())
        &&& net::owns_storage(self.sockets)
    }

    /// The interface has no address that it cannot have, its gateways are single
    /// hosts, and its packets are large enough.
    pub open spec fn iface_ok(&self) -> bool {
        net::iface_view(self.iface).ok()
    }

    /// Everything but the sockets and the bookkeeping stayed as it was.
    pub open spec fn same_setup(&self, before: &Stack<R>) -> bool {
        &&& self.config == before.config
        &&& self.write_notify == before.write_notify
        &&& net::iface_view(self.iface) == net::iface_view(before.iface)
    }

    /// The stack stayed as it was.
    pub open spec fn same(&self, before: &Stack<R>) -> bool {
        &&& self.same_setup(before)
        &&& self.socks() == before.socks()
        &&& self.pending@ == before.pending@
        &&& self.listeners@ == before.listeners@
        &&& self.tcp_states@ == before.tcp_states@
        &&& self.udp_states@ == before.udp_states@
    }
}

} // verus!
