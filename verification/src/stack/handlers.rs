//! Carrying out the commands of the socket handles.

use vstd::prelude::*;

use smoltcp::iface::{Interface, SocketHandle, SocketSet};
use std::sync::Arc;
use tokio::sync::Notify;

use super::channels;
use super::data::{TCP_SOCKET_BUFFER_SIZE, UDP_PACKET_BUFFER_SIZE, UDP_PACKET_METADATA_SLOTS};
use super::handle_map::HandleMap;
use super::net::{self, Endpoint, IfaceView, Refusal, SocketView, TcpState, TcpView};
use super::{
    ended_in_time, is_tcp, is_udp, Bound, Completion, Connected, EphemeralPorts, ListenerState,
    Listening, PendingOp, Reply, Stack, StackCommand, StackConfig,
};
use crate::addr::{IpAddr, SocketAddr};
use crate::error::{invalid_input, Error, ErrorKind};
use crate::text;

verus! {

/// `tokio::sync::Notify::new`: a signal that nobody has given.
#[verifier::external_body]
fn new_notify() -> (notify: Notify) {
    Notify::new()
}

/// How a refusal of a TCP socket reads.
pub open spec fn tcp_refusal_text(refusal: Refusal) -> Seq<char> {
    match refusal {
        Refusal::InvalidState => "invalid state"@,
        Refusal::Unaddressable => "unaddressable destination"@,
    }
}

fn tcp_refusal(refusal: Refusal) -> (reads: &'static str)
    ensures
        reads@ == tcp_refusal_text(refusal),
{
    match refusal {
        Refusal::InvalidState => "invalid state",
        Refusal::Unaddressable => "unaddressable destination",
    }
}

/// A TCP socket as the stack creates it.
pub open spec fn new_tcp() -> TcpView {
    TcpView::fresh(TCP_SOCKET_BUFFER_SIZE as nat, TCP_SOCKET_BUFFER_SIZE as nat)
}

/// What a command to connect leads to.
pub enum ConnectOutcome<R> {
    /// The handshake is under way on this socket.
    Started(SocketHandle),
    Refused(Completion<R>),
}

impl<R> Stack<R> {
    /// The local address of a new connection.
    pub open spec fn source_ip(&self, local_ip: Option<IpAddr>) -> IpAddr {
        match local_ip {
            Some(ip) => ip,
            None => self.config.ip,
        }
    }

    /// A new socket has begun to connect, and its answer is waited for.
    pub open spec fn connect_started(
        &self,
        before: &Stack<R>,
        handle: SocketHandle,
        local: Endpoint,
        addr: SocketAddr,
        response: R,
    ) -> bool {
        let remote = Endpoint { ip: addr.spec_ip(), port: addr.spec_port() };
        &&& self.same_setup(before)
        &&& !before.socks().contains_key(handle)
        &&& self.socks() == before.socks().insert(
            handle,
            SocketView::Tcp(new_tcp().connecting(local, remote)),
        )
        &&& self.tcp_states@ == before.tcp_states@.insert(handle, self.tcp_states@[handle])
        &&& self.pending@ == before.pending@.insert(handle, self.pending@[handle])
        &&& match self.pending@[handle] {
            PendingOp::TcpConnect { local_addr, peer_addr, channels, response: waiting } => {
                &&& local_addr == SocketAddr::spec_new(local.ip, local.port)
                &&& peer_addr == addr
                &&& waiting == response
                &&& channels::tcp_connected(channels, self.tcp_states@[handle])
                &&& channels.write_notify == before.write_notify
            },
            _ => false,
        }
        &&& self.listeners@ == before.listeners@
        &&& self.udp_states@ == before.udp_states@
    }

    /// What a command to connect from local port `port` leads to.
    pub open spec fn connect_handled(
        &self,
        before: &Stack<R>,
        local_ip: Option<IpAddr>,
        addr: SocketAddr,
        response: R,
        port: u16,
        outcome: ConnectOutcome<R>,
    ) -> bool {
        let local = Endpoint { ip: before.source_ip(local_ip), port };
        let remote = Endpoint { ip: addr.spec_ip(), port: addr.spec_port() };
        match new_tcp().connect_refusal(local, remote) {
            Some(refusal) => {
                &&& self.same(before)
                &&& outcome matches ConnectOutcome::Refused(completion)
                &&& completion.response == response
                &&& completion.handle is None
                &&& completion.result is Err
                &&& completion.result->Err_0.reads(
                    ErrorKind::Other,
                    "connect failed: "@ + tcp_refusal_text(refusal),
                )
            },
            None => {
                &&& outcome matches ConnectOutcome::Started(handle)
                &&& self.connect_started(before, handle, local, addr, response)
            },
        }
    }

    /// Begin to connect to `addr`.
    pub fn handle_tcp_connect(
        &mut self,
        local_ip: Option<IpAddr>,
        addr: SocketAddr,
        response: R,
        ports: &mut EphemeralPorts,
    ) -> (outcome: ConnectOutcome<R>)
        requires
            old(self).wf(),
        ensures
            final(self).wf(),
            old(ports).next() >= super::EPHEMERAL_PORT_START,
            final(ports).next() == super::next_port(old(ports).next()),
            final(self).connect_handled(
                old(self),
                local_ip,
                addr,
                response,
                old(ports).next(),
                outcome,
            ),
    {
        let ghost before = *self;
        let socket = net::tcp_new(TCP_SOCKET_BUFFER_SIZE, TCP_SOCKET_BUFFER_SIZE);
        let handle = net::sockets_add_tcp(&mut self.sockets, socket);
        let remote = net::socket_addr_to_endpoint(addr);
        let source_ip = match local_ip {
            Some(ip) => ip,
            None => self.config.ip,
        };
        let local_port: u16 = ports.allocate();
        let local = (net::ip_addr_to_smoltcp(source_ip), local_port);
        let socket = net::sockets_get_tcp(&mut self.sockets, handle);
        match net::tcp_connect(socket, &mut self.iface, local, remote) {
            Err(refusal) => {
                net::sockets_remove(&mut self.sockets, handle);
                assert(self.socks() =~= before.socks());
                let message = text::join("connect failed: ", tcp_refusal(refusal));
                let error = Error::new(ErrorKind::Other, message.as_str());
                return ConnectOutcome::Refused(
                    Completion { handle: None, response, result: Err(error) },
                );
            },
            Ok(()) => {},
        }
        let (channels, state) = channels::create_tcp_channels(channels::share(&self.write_notify));
        self.tcp_states.insert(handle, state);
        let local_addr = net::make_socket_addr(source_ip, local_port);
        self.pending.insert(
            handle,
            PendingOp::TcpConnect { local_addr, peer_addr: addr, channels, response },
        );
        assert(self.socks() =~= before.socks().insert(handle, self.socks()[handle]));
        ConnectOutcome::Started(handle)
    }
}

/// A TCP socket that listens at `addr`.
pub open spec fn listening_tcp(addr: SocketAddr) -> SocketView {
    SocketView::Tcp(new_tcp().listening(net::listen_endpoint(addr)))
}

/// `after` has, beyond what `before` has, a socket listening at `addr` under
/// each of `handles`, all of them new.
pub open spec fn listeners_added(
    before: Map<SocketHandle, SocketView>,
    after: Map<SocketHandle, SocketView>,
    handles: Seq<SocketHandle>,
    addr: SocketAddr,
) -> bool {
    &&& handles.no_duplicates()
    &&& forall|i: int|
        0 <= i < handles.len() ==> !before.contains_key(#[trigger] handles[i])
            && after.contains_key(handles[i]) && after[handles[i]] == listening_tcp(addr)
    &&& forall|h: SocketHandle| #[trigger]
        after.contains_key(h) ==> before.contains_key(h) || handles.contains(h)
    &&& forall|h: SocketHandle| #[trigger]
        before.contains_key(h) ==> after.contains_key(h) && after[h] == before[h]
}

/// A new socket that listens at `addr`.
fn new_listener(addr: SocketAddr) -> (socket: smoltcp::socket::tcp::Socket<'static>)
    requires
        addr.spec_port() != 0,
    ensures
        SocketView::Tcp(net::tcp_view(socket)) == listening_tcp(addr),
{
    let mut socket = net::tcp_new(TCP_SOCKET_BUFFER_SIZE, TCP_SOCKET_BUFFER_SIZE);
    let _ = net::tcp_listen(&mut socket, net::socket_addr_to_listen_ip(addr), addr.port());
    socket
}

/// Add `count` sockets that listen at `addr`.
fn add_listeners(sockets: &mut SocketSet<'static>, addr: SocketAddr, count: usize) -> (handles: Vec<
    SocketHandle,
>)
    requires
        net::owns_storage(*old(sockets)),
        addr.spec_port() != 0,
    ensures
        net::owns_storage(*final(sockets)),
        handles@.len() == count,
        listeners_added(
            net::sockets_view(*old(sockets)),
            net::sockets_view(*final(sockets)),
            handles@,
            addr,
        ),
{
    let mut handles: Vec<SocketHandle> = Vec::new();
    let ghost before = net::sockets_view(*sockets);
    let mut i: usize = 0;
    while i < count
        invariant
            i <= count,
            handles@.len() == i,
            addr.spec_port() != 0,
            net::owns_storage(*sockets),
            listeners_added(before, net::sockets_view(*sockets), handles@, addr),
        decreases count - i,
    {
        let ghost sofar = net::sockets_view(*sockets);
        let ghost fewer = handles@;
        let handle = net::sockets_add_tcp(sockets, new_listener(addr));
        handles.push(handle);
        i = i + 1;
        proof {
            let now = net::sockets_view(*sockets);
            assert forall|j: int| 0 <= j < handles@.len() implies !before.contains_key(
                #[trigger] handles@[j],
            ) && now.contains_key(handles@[j]) && now[handles@[j]] == listening_tcp(addr) by {
                if j < fewer.len() {
                    assert(handles@[j] == fewer[j]);
                }
            }
            assert forall|h: SocketHandle| #[trigger] now.contains_key(h) implies
                before.contains_key(h) || handles@.contains(h) by {
                if h == handle {
                    assert(handles@[fewer.len() as int] == h);
                } else {
                    assert(sofar.contains_key(h));
                    if fewer.contains(h) {
                        let j = choose|j: int| 0 <= j < fewer.len() && fewer[j] == h;
                        assert(handles@[j] == h);
                    }
                }
            }
            assert forall|a: int, b: int|
                0 <= a < handles@.len() && 0 <= b < handles@.len() && a != b implies handles@[a]
                != handles@[b] by {
                if a < fewer.len() {
                    assert(sofar.contains_key(fewer[a]));
                }
                if b < fewer.len() {
                    assert(sofar.contains_key(fewer[b]));
                }
            }
        }
    }
    handles
}

/// Why a command to listen is refused.
pub open spec fn listen_refusal(
    listeners: Map<SocketHandle, ListenerState>,
    addr: SocketAddr,
) -> Option<ErrorKind> {
    if addr.spec_port() == 0 {
        Some(ErrorKind::InvalidInput)
    } else if exists|h: SocketHandle| #[trigger]
        listeners.contains_key(h) && listeners[h].addr.spec_port() == addr.spec_port() {
        Some(ErrorKind::AddrInUse)
    } else {
        None
    }
}

impl<R> Stack<R> {
    /// Whether a listener has this port.
    fn port_in_use(&self, port: u16) -> (found: bool)
        requires
            self.wf(),
        ensures
            found == exists|h: SocketHandle| #[trigger]
                self.listeners@.contains_key(h) && self.listeners@[h].addr.spec_port() == port,
    {
        let mut i: usize = 0;
        proof {
            self.listeners.lemma_entries();
        }
        while i < self.listeners.entries.len()
            invariant
                self.wf(),
                i <= self.listeners.entries@.len(),
                forall|j: int|
                    0 <= j < i ==> (#[trigger] self.listeners.entries@[j]).1.addr.spec_port()
                        != port,
            decreases self.listeners.entries@.len() - i,
        {
            if self.listeners.entries[i].1.addr.port() == port {
                proof {
                    self.listeners.lemma_entries();
                    assert(self.listeners@.contains_key(self.listeners.entries@[i as int].0));
                }
                return true;
            }
            i = i + 1;
        }
        proof {
            assert forall|h: SocketHandle| #[trigger] self.listeners@.contains_key(h) implies
                self.listeners@[h].addr.spec_port() != port by {
                let j = choose|j: int|
                    #[trigger] super::handle_map::entry_at(self.listeners.entries@, h, j);
                assert(self.listeners.entries@[j].0 == h);
            }
        }
        false
    }

    /// A listener with `count` sockets was added.
    pub open spec fn listener_created(
        &self,
        before: &Stack<R>,
        listening: Listening,
        addr: SocketAddr,
        count: nat,
    ) -> bool {
        let listener = self.listeners@[listening.handle];
        &&& self.same_setup(before)
        &&& listening.addr == addr
        &&& listener.addr == addr
        &&& listener.listening_handles@.len() == count
        &&& listener.listening_handles@[0] == listening.handle
        &&& listeners_added(before.socks(), self.socks(), listener.listening_handles@, addr)
        &&& self.listeners@ == before.listeners@.insert(listening.handle, listener)
        &&& self.pending@ == before.pending@
        &&& self.tcp_states@ == before.tcp_states@
        &&& self.udp_states@ == before.udp_states@
    }

    /// What a command to listen leads to.
    pub open spec fn listen_handled(
        &self,
        before: &Stack<R>,
        addr: SocketAddr,
        backlog: usize,
        result: Result<Listening, Error>,
    ) -> bool {
        match listen_refusal(before.listeners@, addr) {
            Some(kind) => {
                &&& self.same(before)
                &&& result is Err
                &&& result->Err_0.reads(
                    kind,
                    if kind == ErrorKind::InvalidInput {
                        "cannot listen on port 0"@
                    } else {
                        "address already in use"@
                    },
                )
            },
            None => result is Ok && self.listener_created(
                before,
                result->Ok_0,
                addr,
                if backlog == 0 {
                    1
                } else {
                    backlog as nat
                },
            ),
        }
    }

    /// Listen at `addr` with as many sockets as `backlog` says, at least one.
    pub fn handle_tcp_listen(&mut self, addr: SocketAddr, backlog: usize) -> (result: Result<
        Listening,
        Error,
    >)
        requires
            old(self).wf(),
        ensures
            final(self).wf(),
            final(self).listen_handled(old(self), addr, backlog, result),
    {
        if addr.port() == 0 {
            return Err(invalid_input("cannot listen on port 0"));
        }
        if self.port_in_use(addr.port()) {
            return Err(Error::new(ErrorKind::AddrInUse, "address already in use"));
        }
        let ghost before = *self;
        let count: usize = if backlog == 0 {
            1
        } else {
            backlog
        };
        let listening_handles = add_listeners(&mut self.sockets, addr, count);
        let handle = listening_handles[0];
        let ghost handles = listening_handles@;
        self.listeners.insert(handle, ListenerState { addr, listening_handles });
        proof {
            assert forall|h: SocketHandle| #[trigger] self.listeners@.contains_key(h) implies
                is_tcp(self.socks(), h) && super::listener_ok(
                self.listeners@[h],
                self.socks(),
                self.tcp_states@,
            ) by {
                if h == handle {
                    assert forall|i: int| 0 <= i < handles.len() implies is_tcp(
                        self.socks(),
                        #[trigger] handles[i],
                    ) && !self.tcp_states@.contains_key(handles[i]) by {}
                } else {
                    assert(before.listeners@.contains_key(h));
                }
            }
            assert forall|a: SocketHandle, b: SocketHandle| #[trigger]
                self.listeners@.contains_key(a) && #[trigger] self.listeners@.contains_key(b) && a
                    != b implies super::apart(self.listeners@[a], self.listeners@[b]) by {
                if a != handle {
                    assert(before.listeners@.contains_key(a));
                }
                if b != handle {
                    assert(before.listeners@.contains_key(b));
                }
            }
        }
        Ok(Listening { handle, addr })
    }
}

/// A connection that a listener's socket has, ready to be accepted.
#[derive(Clone, Copy, Debug)]
pub struct Accepted {
    pub handle: SocketHandle,
    pub local: SocketAddr,
    pub peer: SocketAddr,
}

/// The socket has a connection to hand out.
pub open spec fn ready(sockets: Map<SocketHandle, SocketView>, handle: SocketHandle) -> bool {
    &&& sockets[handle]->Tcp_0.state == TcpState::Established
    &&& sockets[handle]->Tcp_0.tuple is Some
}

/// The first of `handles` that is ready stands at `i`.
pub open spec fn first_ready(
    sockets: Map<SocketHandle, SocketView>,
    handles: Seq<SocketHandle>,
    i: int,
) -> bool {
    &&& 0 <= i < handles.len()
    &&& ready(sockets, handles[i])
    &&& forall|j: int| 0 <= j < i ==> !ready(sockets, #[trigger] handles[j])
}

/// None of `handles` is ready.
pub open spec fn none_ready(
    sockets: Map<SocketHandle, SocketView>,
    handles: Seq<SocketHandle>,
) -> bool {
    forall|j: int| 0 <= j < handles.len() ==> !ready(sockets, #[trigger] handles[j])
}

/// The two ends of the connection under `handle`.
pub open spec fn accepted_at(
    sockets: Map<SocketHandle, SocketView>,
    handle: SocketHandle,
) -> Accepted {
    let tuple = sockets[handle]->Tcp_0.tuple->0;
    Accepted {
        handle,
        local: SocketAddr::spec_new(tuple.local.ip, tuple.local.port),
        peer: SocketAddr::spec_new(tuple.remote.ip, tuple.remote.port),
    }
}

/// The connection at `i` was taken from the listener, and a new socket listens
/// in its place.
pub open spec fn took_connection(
    before: Map<SocketHandle, SocketView>,
    after: Map<SocketHandle, SocketView>,
    listener: ListenerState,
    next: ListenerState,
    i: int,
    accepted: Accepted,
) -> bool {
    let new = next.listening_handles@.last();
    &&& first_ready(before, listener.listening_handles@, i)
    &&& accepted == accepted_at(before, listener.listening_handles@[i])
    &&& next.addr == listener.addr
    &&& next.listening_handles@ == listener.listening_handles@.remove(i).push(new)
    &&& !before.contains_key(new)
    &&& after == before.insert(new, listening_tcp(listener.addr))
}

/// Try to accept a connection from one of the listener's sockets. If there is
/// one, a new listening socket takes the place of its socket, so that the
/// backlog stays as large as it was.
pub fn try_accept_socket(
    sockets: &mut SocketSet<'static>,
    state: &mut ListenerState,
) -> (accepted: Option<Accepted>)
    requires
        net::owns_storage(*old(sockets)),
        old(state).addr.spec_port() != 0,
        forall|i: int|
            0 <= i < old(state).listening_handles@.len() ==> is_tcp(
                net::sockets_view(*old(sockets)),
                #[trigger] old(state).listening_handles@[i],
            ),
    ensures
        net::owns_storage(*final(sockets)),
        match accepted {
            Some(accepted) => exists|i: int|
                #[trigger] took_connection(
                    net::sockets_view(*old(sockets)),
                    net::sockets_view(*final(sockets)),
                    *old(state),
                    *final(state),
                    i,
                    accepted,
                ),
            None => {
                &&& none_ready(net::sockets_view(*old(sockets)), old(state).listening_handles@)
                &&& net::sockets_view(*final(sockets)) == net::sockets_view(*old(sockets))
                &&& *final(state) == *old(state)
            },
        },
{
    let ghost before = net::sockets_view(*sockets);
    let ghost listener = *state;
    let mut i: usize = 0;
    while i < state.listening_handles.len()
        invariant
            *state == listener,
            i <= listener.listening_handles@.len(),
            listener.addr.spec_port() != 0,
            net::sockets_view(*sockets) == before,
            net::owns_storage(*sockets),
            forall|j: int|
                0 <= j < listener.listening_handles@.len() ==> is_tcp(
                    before,
                    #[trigger] listener.listening_handles@[j],
                ),
            forall|j: int|
                0 <= j < i ==> !ready(before, #[trigger] listener.listening_handles@[j]),
            *old(state) == listener,
            before == net::sockets_view(*old(sockets)),
        decreases listener.listening_handles@.len() - i,
    {
        let handle = state.listening_handles[i];
        assert(is_tcp(before, handle));
        let socket = net::sockets_get_tcp(sockets, handle);
        let established = net::tcp_state(socket) == TcpState::Established;
        let remote = net::tcp_remote_endpoint(socket);
        let local = net::tcp_local_endpoint(socket);
        assert(net::sockets_view(*sockets) =~= before);
        if established {
            if let (Some(remote), Some(local)) = (remote, local) {
                let accepted = Accepted {
                    handle,
                    local: net::endpoint_to_socket_addr(local),
                    peer: net::endpoint_to_socket_addr(remote),
                };
                let _ = state.listening_handles.remove(i);
                let new = net::sockets_add_tcp(sockets, new_listener(state.addr));
                state.listening_handles.push(new);
                proof {
                    assert(state.listening_handles@.last() == new);
                    assert(took_connection(
                        before,
                        net::sockets_view(*sockets),
                        listener,
                        *state,
                        i as int,
                        accepted,
                    ));
                }
                return Some(accepted);
            }
        }
        i = i + 1;
    }
    None
}

impl<R> Stack<R> {
    /// The connection at `i` of listener `handle` was accepted, and has
    /// channels of its own.
    pub open spec fn connection_accepted(
        &self,
        before: &Stack<R>,
        handle: SocketHandle,
        i: int,
        connected: Connected,
    ) -> bool {
        let accepted = Accepted {
            handle: connected.handle,
            local: connected.local,
            peer: connected.peer,
        };
        &&& self.same_setup(before)
        &&& took_connection(
            before.socks(),
            self.socks(),
            before.listeners@[handle],
            self.listeners@[handle],
            i,
            accepted,
        )
        &&& self.listeners@ == before.listeners@.insert(handle, self.listeners@[handle])
        &&& self.tcp_states@ == before.tcp_states@.insert(
            connected.handle,
            self.tcp_states@[connected.handle],
        )
        &&& channels::tcp_connected(connected.channels, self.tcp_states@[connected.handle])
        &&& connected.channels.write_notify == before.write_notify
        &&& self.udp_states@ == before.udp_states@
    }

    /// The stack after `accepted` was taken from listener `handle` and given
    /// its channels.
    proof fn lemma_accepted_wf(
        self,
        before: Stack<R>,
        handle: SocketHandle,
        i: int,
        accepted: Accepted,
    )
        requires
            before.wf(),
            before.listeners@.contains_key(handle),
            took_connection(
                before.socks(),
                self.socks(),
                before.listeners@[handle],
                self.listeners@[handle],
                i,
                accepted,
            ),
            self.listeners.wf(),
            self.tcp_states.wf(),
            net::owns_storage(self.sockets),
            self.pending == before.pending,
            self.udp_states == before.udp_states,
            self.iface == before.iface,
            self.listeners@ == before.listeners@.insert(handle, self.listeners@[handle]),
            self.tcp_states@ == before.tcp_states@.insert(
                accepted.handle,
                self.tcp_states@[accepted.handle],
            ),
            self.tcp_states@[accepted.handle].read_tx is Some,
        ensures
            self.wf(),
            !before.tcp_states@.contains_key(accepted.handle),
            is_tcp(before.socks(), accepted.handle),
    {
        let old_list = before.listeners@[handle].listening_handles@;
        let new_list = self.listeners@[handle].listening_handles@;
        let new = new_list.last();
        assert(super::listener_ok(before.listeners@[handle], before.socks(), before.tcp_states@));
        assert(accepted.handle == old_list[i]);
        assert forall|j: int| 0 <= j < new_list.len() - 1 implies #[trigger] new_list[j]
            == old_list[if j < i {
            j
        } else {
            j + 1
        }] by {}
        assert forall|h: SocketHandle| #[trigger] self.listeners@.contains_key(h) implies is_tcp(
            self.socks(),
            h,
        ) && super::listener_ok(self.listeners@[h], self.socks(), self.tcp_states@) by {
            assert(before.listeners@.contains_key(h));
            let list = self.listeners@[h].listening_handles@;
            if h == handle {
                assert forall|j: int| 0 <= j < list.len() implies is_tcp(
                    self.socks(),
                    #[trigger] list[j],
                ) && !self.tcp_states@.contains_key(list[j]) by {
                    if j < list.len() - 1 {
                        let k = if j < i {
                            j
                        } else {
                            j + 1
                        };
                        assert(list[j] == old_list[k]);
                        assert(is_tcp(before.socks(), old_list[k]));
                    }
                }
                assert forall|a: int, b: int|
                    0 <= a < list.len() && 0 <= b < list.len() && a != b implies list[a]
                    != list[b] by {
                    let last = list.len() - 1;
                    if a < last {
                        let k = if a < i {
                            a
                        } else {
                            a + 1
                        };
                        assert(list[a] == old_list[k]);
                        assert(is_tcp(before.socks(), old_list[k]));
                    }
                    if b < last {
                        let k = if b < i {
                            b
                        } else {
                            b + 1
                        };
                        assert(list[b] == old_list[k]);
                        assert(is_tcp(before.socks(), old_list[k]));
                    }
                }
            } else {
                assert(super::apart(before.listeners@[h], before.listeners@[handle]));
                assert forall|j: int| 0 <= j < list.len() implies is_tcp(
                    self.socks(),
                    #[trigger] list[j],
                ) && !self.tcp_states@.contains_key(list[j]) by {
                    assert(list[j] != old_list[i]);
                    assert(is_tcp(before.socks(), list[j]));
                }
            }
        }
        assert forall|a: SocketHandle, b: SocketHandle| #[trigger]
            self.listeners@.contains_key(a) && #[trigger] self.listeners@.contains_key(b) && a
                != b implies super::apart(self.listeners@[a], self.listeners@[b]) by {
            assert(before.listeners@.contains_key(a) && before.listeners@.contains_key(b));
            assert(super::apart(before.listeners@[a], before.listeners@[b]));
            let la = self.listeners@[a].listening_handles@;
            let lb = self.listeners@[b].listening_handles@;
            assert forall|x: int, y: int| 0 <= x < la.len() && 0 <= y < lb.len() implies (
            #[trigger] la[x]) != (#[trigger] lb[y]) by {
                if a == handle {
                    assert(is_tcp(before.socks(), lb[y]));
                    if x < la.len() - 1 {
                        let k = if x < i {
                            x
                        } else {
                            x + 1
                        };
                        assert(la[x] == old_list[k]);
                    }
                } else if b == handle {
                    assert(is_tcp(before.socks(), la[x]));
                    if y < lb.len() - 1 {
                        let k = if y < i {
                            y
                        } else {
                            y + 1
                        };
                        assert(lb[y] == old_list[k]);
                    }
                }
            }
        }
    }

    /// Take a connection from listener `handle`, if it has one, and give it
    /// channels. What is pending stays as it is.
    pub(crate) fn accept_from(&mut self, handle: SocketHandle) -> (connected: Option<Connected>)
        requires
            old(self).wf(),
            old(self).listeners@.contains_key(handle),
        ensures
            final(self).wf(),
            final(self).pending == old(self).pending,
            match connected {
                Some(connected) => exists|i: int|
                    #[trigger] final(self).connection_accepted(old(self), handle, i, connected),
                None => {
                    &&& final(self).same(old(self))
                    &&& none_ready(
                        old(self).socks(),
                        old(self).listeners@[handle].listening_handles@,
                    )
                },
            },
    {
        let ghost before = *self;
        proof {
            self.listeners.lemma_entries();
        }
        let index: usize = match self.listeners.position(handle) {
            Some(index) => index,
            None => {
                return None;
            },
        };
        proof {
            assert(super::listener_ok(self.listeners@[handle], self.socks(), self.tcp_states@));
        }
        let state = self.listeners.value_mut(index);
        let accepted = try_accept_socket(&mut self.sockets, state);
        proof {
            HandleMap::lemma_value_changed(
                before.listeners,
                self.listeners,
                index as int,
                self.listeners.entries@[index as int].1,
            );
        }
        match accepted {
            None => {
                assert(self.listeners@ =~= before.listeners@);
                None
            },
            Some(accepted) => {
                let (channels, state) = channels::create_tcp_channels(
                    channels::share(&self.write_notify),
                );
                self.tcp_states.insert(accepted.handle, state);
                let connected = Connected {
                    handle: accepted.handle,
                    local: accepted.local,
                    peer: accepted.peer,
                    channels,
                };
                proof {
                    let i = choose|i: int|
                        #[trigger] took_connection(
                            before.socks(),
                            self.socks(),
                            before.listeners@[handle],
                            self.listeners@[handle],
                            i,
                            accepted,
                        );
                    self.lemma_accepted_wf(before, handle, i, accepted);
                    assert(self.connection_accepted(&before, handle, i, connected));
                }
                Some(connected)
            },
        }
    }
}

impl<R> Stack<R> {
    /// What a command to accept leads to.
    pub open spec fn accept_handled(
        &self,
        before: &Stack<R>,
        handle: SocketHandle,
        response: R,
        completion: Option<Completion<R>>,
    ) -> bool {
        match completion {
            Some(completion) => {
                &&& completion.response == response
                &&& completion.handle == Some(handle)
                &&& self.pending@ == before.pending@
                &&& match completion.result {
                    Ok(connected) => {
                        &&& before.listeners@.contains_key(handle)
                        &&& exists|i: int|
                            #[trigger] self.connection_accepted(before, handle, i, connected)
                    },
                    Err(error) => {
                        &&& !before.listeners@.contains_key(handle)
                        &&& error.reads(ErrorKind::InvalidInput, "not a listener handle"@)
                        &&& self.same(before)
                    },
                }
            },
            None => {
                &&& before.listeners@.contains_key(handle)
                &&& none_ready(before.socks(), before.listeners@[handle].listening_handles@)
                &&& self.same_setup(before)
                &&& self.socks() == before.socks()
                &&& self.listeners@ == before.listeners@
                &&& self.tcp_states@ == before.tcp_states@
                &&& self.udp_states@ == before.udp_states@
                &&& self.pending@ == before.pending@.insert(
                    handle,
                    PendingOp::TcpAccept { response },
                )
            },
        }
    }

    /// Accept a connection on listener `handle`: at once if there is one, else
    /// the answer is waited for.
    pub fn handle_tcp_accept(&mut self, handle: SocketHandle, response: R) -> (completion: Option<
        Completion<R>,
    >)
        requires
            old(self).wf(),
        ensures
            final(self).wf(),
            final(self).accept_handled(old(self), handle, response, completion),
    {
        if !self.listeners.contains(handle) {
            let error = invalid_input("not a listener handle");
            return Some(Completion { handle: Some(handle), response, result: Err(error) });
        }
        match self.accept_from(handle) {
            Some(connected) => Some(
                Completion { handle: Some(handle), response, result: Ok(connected) },
            ),
            None => {
                self.pending.insert(handle, PendingOp::TcpAccept { response });
                None
            },
        }
    }

    /// Of the sockets under the first `upto` of `handles`, those that listened
    /// are closed; all others stayed as they were.
    pub open spec fn sockets_closed(
        &self,
        before: &Stack<R>,
        handles: Seq<SocketHandle>,
        upto: int,
    ) -> bool {
        &&& self.socks().dom() == before.socks().dom()
        &&& forall|h: SocketHandle| #[trigger]
            before.socks().contains_key(h) ==> self.socks()[h] == if handles.take(upto).contains(h)
                && before.socks()[h]->Tcp_0.state == TcpState::Listen {
                SocketView::Tcp(before.socks()[h]->Tcp_0.closing())
            } else {
                before.socks()[h]
            }
    }

    /// What a command to close a listener leads to.
    pub open spec fn listener_closed(&self, before: &Stack<R>, handle: SocketHandle) -> bool {
        &&& self.same_setup(before)
        &&& self.pending@ == before.pending@.remove(handle)
        &&& self.listeners@ == before.listeners@.remove(handle)
        &&& self.tcp_states@ == before.tcp_states@
        &&& self.udp_states@ == before.udp_states@
        &&& if before.listeners@.contains_key(handle) {
            let handles = before.listeners@[handle].listening_handles@;
            self.sockets_closed(before, handles, handles.len() as int)
        } else {
            self.socks() == before.socks()
        }
    }

    /// Close a listener: its sockets that nobody has connected to are closed,
    /// and nobody waits for it any more.
    pub fn handle_tcp_listener_close(&mut self, handle: SocketHandle)
        requires
            old(self).wf(),
        ensures
            final(self).wf(),
            final(self).listener_closed(old(self), handle),
    {
        let ghost before = *self;
        let _ = self.pending.remove(handle);
        let ghost listeners = self.listeners@;
        match self.listeners.remove(handle) {
            Some(state) => {
                let ghost handles = state.listening_handles@;
                assert(super::listener_ok(state, before.socks(), before.tcp_states@));
                let mut i: usize = 0;
                assert(handles.take(0) =~= Seq::<SocketHandle>::empty());
                while i < state.listening_handles.len()
                    invariant
                        before.wf(),
                        i <= handles.len(),
                        handles == state.listening_handles@,
                        super::listener_ok(state, before.socks(), before.tcp_states@),
                        self.sockets_closed(&before, handles, i as int),
                        self.same_setup(&before),
                        self.iface == before.iface,
                        net::owns_storage(self.sockets),
                        self.pending.wf(),
                        self.listeners.wf(),
                        self.tcp_states == before.tcp_states,
                        self.udp_states == before.udp_states,
                        self.pending@ == before.pending@.remove(handle),
                        self.listeners@ == before.listeners@.remove(handle),
                    decreases handles.len() - i,
                {
                    let ghost sofar = self.socks();
                    let socket_handle = state.listening_handles[i];
                    assert(handles[i as int] == socket_handle);
                    assert(is_tcp(before.socks(), socket_handle));
                    assert(before.socks().contains_key(socket_handle));
                    assert(self.socks().dom().contains(socket_handle));
                    let socket = net::sockets_get_tcp(&mut self.sockets, socket_handle);
                    if net::tcp_state(socket) == TcpState::Listen {
                        net::tcp_close(socket);
                    }
                    proof {
                        let now = self.socks();
                        assert(now.dom() =~= sofar.dom());
                        assert(!handles.take(i as int).contains(socket_handle)) by {
                            if handles.take(i as int).contains(socket_handle) {
                                let j = choose|j: int|
                                    0 <= j < i && handles.take(i as int)[j] == socket_handle;
                                assert(handles[j] == handles[i as int]);
                            }
                        }
                        assert forall|h: SocketHandle| #[trigger]
                            before.socks().contains_key(h) implies now[h] == if handles.take(
                            i + 1,
                        ).contains(h) && before.socks()[h]->Tcp_0.state == TcpState::Listen {
                            SocketView::Tcp(before.socks()[h]->Tcp_0.closing())
                        } else {
                            before.socks()[h]
                        } by {
                            let a = handles.take(i as int);
                            let b = handles.take(i + 1);
                            assert(b =~= a.push(socket_handle));
                            if a.contains(h) {
                                let j = choose|j: int| 0 <= j < a.len() && a[j] == h;
                                assert(b[j] == h);
                            }
                            if b.contains(h) && h != socket_handle {
                                let j = choose|j: int| 0 <= j < b.len() && b[j] == h;
                                assert(a[j] == h);
                            }
                            assert(b[i as int] == socket_handle);
                        }
                    }
                    i = i + 1;
                }
                proof {
                    self.lemma_kinds_kept(before);
                }
            },
            None => {
                assert(self.listeners@ =~= before.listeners@);
            },
        }
    }

    /// Forgetting listeners and what is pending, and changing what sockets
    /// hold but not their kinds, keeps the stack well-formed.
    pub proof fn lemma_kinds_kept(self, before: Stack<R>)
        requires
            before.wf(),
            self.pending.wf(),
            self.listeners.wf(),
            self.tcp_states.wf(),
            self.udp_states.wf(),
            self.iface_ok(),
            net::sockets_pollable(self.socks()),
            net::owns_storage(self.sockets),
            forall|h: SocketHandle| #[trigger]
                self.pending@.contains_key(h) ==> before.pending@.contains_key(h)
                    && self.pending@[h] == before.pending@[h],
            forall|h: SocketHandle| #[trigger]
                self.listeners@.contains_key(h) ==> before.listeners@.contains_key(h)
                    && self.listeners@[h] == before.listeners@[h],
            forall|h: SocketHandle| #[trigger]
                self.tcp_states@.contains_key(h) ==> before.tcp_states@.contains_key(h)
                    && channels::same_ends(before.tcp_states@[h], self.tcp_states@[h])
                    && ended_in_time(self.socks()[h], self.tcp_states@[h]),
            forall|h: SocketHandle| #[trigger]
                self.udp_states@.contains_key(h) ==> before.udp_states@.contains_key(h)
                    && self.udp_states@[h].read_tx is Some,
            forall|h: SocketHandle| #[trigger]
                before.socks().contains_key(h) ==> self.socks().contains_key(h) && (
                self.socks()[h] is Tcp <==> before.socks()[h] is Tcp) && (
                before.socks()[h] is Tcp ==> net::ends_kept(
                    before.socks()[h]->Tcp_0,
                    self.socks()[h]->Tcp_0,
                )),
        ensures
            self.wf(),
    {
        assert forall|h: SocketHandle| #[trigger] self.listeners@.contains_key(h) implies is_tcp(
            self.socks(),
            h,
        ) && super::listener_ok(self.listeners@[h], self.socks(), self.tcp_states@) by {
            assert(before.listeners@.contains_key(h));
            let list = self.listeners@[h].listening_handles@;
            assert forall|i: int| 0 <= i < list.len() implies is_tcp(
                self.socks(),
                #[trigger] list[i],
            ) && !self.tcp_states@.contains_key(list[i]) && super::listens_at(
                self.socks()[list[i]]->Tcp_0,
                self.listeners@[h].addr,
            ) by {
                assert(is_tcp(before.socks(), list[i]));
                assert(before.socks().contains_key(list[i]));
            }
        }
        assert forall|a: SocketHandle, b: SocketHandle| #[trigger]
            self.listeners@.contains_key(a) && #[trigger] self.listeners@.contains_key(b) && a
                != b implies super::apart(self.listeners@[a], self.listeners@[b]) by {
            assert(before.listeners@.contains_key(a) && before.listeners@.contains_key(b));
        }
    }

    /// What a command to close a TCP socket leads to.
    pub open spec fn tcp_closed(&self, before: &Stack<R>, handle: SocketHandle) -> bool {
        &&& self.same_setup(before)
        &&& self.socks() == before.socks().insert(
            handle,
            SocketView::Tcp(before.socks()[handle]->Tcp_0.closing()),
        )
        &&& self.tcp_states@ == before.tcp_states@.remove(handle)
        &&& self.pending@ == before.pending@
        &&& self.listeners@ == before.listeners@
        &&& self.udp_states@ == before.udp_states@
    }

    /// Close a TCP socket. Its channels are dropped.
    pub fn handle_tcp_close(&mut self, handle: SocketHandle)
        requires
            old(self).wf(),
            is_tcp(old(self).socks(), handle),
        ensures
            final(self).wf(),
            final(self).tcp_closed(old(self), handle),
    {
        let ghost before = *self;
        let socket = net::sockets_get_tcp(&mut self.sockets, handle);
        net::tcp_close(socket);
        let _ = self.tcp_states.remove(handle);
        proof {
            self.lemma_kinds_kept(before);
        }
    }

    /// What a command to close a UDP socket leads to.
    pub open spec fn udp_closed(&self, before: &Stack<R>, handle: SocketHandle) -> bool {
        &&& self.same_setup(before)
        &&& self.socks() == before.socks().insert(handle, self.socks()[handle])
        &&& self.socks()[handle] is Udp
        &&& before.socks()[handle]->Udp_0.closed(self.socks()[handle]->Udp_0)
        &&& self.udp_states@ == before.udp_states@.remove(handle)
        &&& self.pending@ == before.pending@
        &&& self.listeners@ == before.listeners@
        &&& self.tcp_states@ == before.tcp_states@
    }

    /// Close a UDP socket. Its channels are dropped.
    pub fn handle_udp_close(&mut self, handle: SocketHandle)
        requires
            old(self).wf(),
            is_udp(old(self).socks(), handle),
        ensures
            final(self).wf(),
            final(self).udp_closed(old(self), handle),
    {
        let ghost before = *self;
        let socket = net::sockets_get_udp(&mut self.sockets, handle);
        net::udp_close(socket);
        let _ = self.udp_states.remove(handle);
        proof {
            self.lemma_kinds_kept(before);
        }
    }

    /// A new UDP socket was bound.
    pub open spec fn udp_bound(
        &self,
        before: &Stack<R>,
        bound: Bound,
        addr: SocketAddr,
        port: u16,
    ) -> bool {
        &&& self.same_setup(before)
        &&& !before.socks().contains_key(bound.handle)
        &&& self.socks() == before.socks().insert(bound.handle, self.socks()[bound.handle])
        &&& self.socks()[bound.handle] is Udp
        &&& ({
            let socket = self.socks()[bound.handle]->Udp_0;
            &&& socket.bound_to == net::listen_endpoint_with_port(addr, port)
            &&& socket.outgoing.len() == 0
            &&& socket.incoming.len() == 0
            &&& !socket.has_entry
            &&& socket.slots == UDP_PACKET_METADATA_SLOTS
            &&& socket.bytes == UDP_PACKET_BUFFER_SIZE
            &&& socket.takes == net::empty_queue_takes(
                UDP_PACKET_METADATA_SLOTS,
                UDP_PACKET_BUFFER_SIZE,
            )
        })
        &&& bound.addr == SocketAddr::spec_new(addr.spec_ip(), port)
        &&& self.udp_states@ == before.udp_states@.insert(
            bound.handle,
            self.udp_states@[bound.handle],
        )
        &&& channels::udp_connected(bound.channels, self.udp_states@[bound.handle])
        &&& bound.channels.write_notify == before.write_notify
        &&& self.pending@ == before.pending@
        &&& self.listeners@ == before.listeners@
        &&& self.tcp_states@ == before.tcp_states@
    }

    /// What a command to bind leads to, when `next` is the next ephemeral port.
    pub open spec fn bind_handled(
        &self,
        before: &Stack<R>,
        addr: SocketAddr,
        next: u16,
        result: Result<Bound, Error>,
    ) -> bool {
        let port = if addr.spec_port() == 0 {
            next
        } else {
            addr.spec_port()
        };
        result is Ok && self.udp_bound(before, result->Ok_0, addr, port)
    }

    /// Bind a UDP socket to `addr`; port 0 stands for the next ephemeral port.
    pub fn handle_udp_bind(&mut self, addr: SocketAddr, ports: &mut EphemeralPorts) -> (result:
        Result<Bound, Error>)
        requires
            old(self).wf(),
        ensures
            final(self).wf(),
            final(ports).next() == if addr.spec_port() == 0 {
                super::next_port(old(ports).next())
            } else {
                old(ports).next()
            },
            addr.spec_port() == 0 ==> old(ports).next() >= super::EPHEMERAL_PORT_START,
            final(self).bind_handled(old(self), addr, old(ports).next(), result),
    {
        let ghost before = *self;
        let mut socket = net::udp_new(UDP_PACKET_METADATA_SLOTS, UDP_PACKET_BUFFER_SIZE);
        let port: u16 = if addr.port() == 0 {
            ports.allocate()
        } else {
            addr.port()
        };
        let bound_addr = net::make_socket_addr(addr.ip(), port);
        let _ = net::udp_bind(&mut socket, net::socket_addr_to_listen_ip(addr), port);
        let handle = net::sockets_add_udp(&mut self.sockets, socket);
        let (channels, state) = channels::create_udp_channels(channels::share(&self.write_notify));
        self.udp_states.insert(handle, state);
        assert(self.socks() =~= before.socks().insert(handle, self.socks()[handle]));
        Ok(Bound { handle, addr: bound_addr, channels })
    }

    /// The interface has this address with this prefix length.
    pub open spec fn has_ip(&self, ip: IpAddr, prefix_len: u8) -> bool {
        net::iface_view(self.iface).addrs.contains((ip, prefix_len))
    }

    /// Everything but the addresses of the interface stayed as it was.
    pub open spec fn same_but_addrs(&self, before: &Stack<R>) -> bool {
        &&& self.config == before.config
        &&& self.write_notify == before.write_notify
        &&& net::iface_view(self.iface) == (IfaceView {
            addrs: net::iface_view(self.iface).addrs,
            ..net::iface_view(before.iface)
        })
        &&& self.socks() == before.socks()
        &&& self.pending@ == before.pending@
        &&& self.listeners@ == before.listeners@
        &&& self.tcp_states@ == before.tcp_states@
        &&& self.udp_states@ == before.udp_states@
    }

    /// What a command to add an address leads to.
    pub open spec fn add_ip_handled(
        &self,
        before: &Stack<R>,
        ip: IpAddr,
        prefix_len: u8,
        result: Result<(), Error>,
    ) -> bool {
        let was = net::iface_view(before.iface);
        let now = net::iface_view(self.iface);
        &&& self.same_but_addrs(before)
        &&& if before.has_ip(ip, prefix_len) {
            result is Ok && now.addrs == was.addrs
        } else if was.addrs.len() < was.addr_limit {
            result is Ok && now.addrs == was.addrs.push((ip, prefix_len))
        } else {
            &&& result is Err
            &&& result->Err_0.reads(ErrorKind::OutOfMemory, "address list full"@)
            &&& now.addrs == was.addrs
        }
    }

    /// Add an address to the interface. One that is there already is left.
    pub fn handle_add_ip(&mut self, ip: IpAddr, prefix_len: u8) -> (result: Result<(), Error>)
        requires
            old(self).wf(),
            net::assignable(ip),
            prefix_len <= ip.max_prefix_len(),
        ensures
            final(self).wf(),
            final(self).add_ip_handled(old(self), ip, prefix_len, result),
    {
        let addrs = self.handle_get_ips();
        let mut i: usize = 0;
        while i < addrs.len()
            invariant
                i <= addrs@.len(),
                addrs@ == net::iface_view(self.iface).addrs,
                *self == *old(self),
                self.wf(),
                forall|j: int| 0 <= j < i ==> #[trigger] addrs@[j] != (ip, prefix_len),
            decreases addrs@.len() - i,
        {
            if addrs[i].0 == ip && addrs[i].1 == prefix_len {
                assert(addrs@[i as int] == (ip, prefix_len));
                return Ok(());
            }
            i = i + 1;
        }
        if net::iface_push_ip_addr(&mut self.iface, net::ip_addr_to_smoltcp(ip), prefix_len) {
            Ok(())
        } else {
            Err(Error::new(ErrorKind::OutOfMemory, "address list full"))
        }
    }

    /// What a command to remove an address leads to.
    pub open spec fn remove_ip_handled(&self, before: &Stack<R>, ip: IpAddr) -> bool {
        &&& self.same_but_addrs(before)
        &&& net::iface_view(self.iface).addrs == without_ip(
            net::iface_view(before.iface).addrs,
            ip,
        )
    }

    /// Remove an address from the interface, whatever its prefix length.
    pub fn handle_remove_ip(&mut self, ip: IpAddr) -> (result: Result<(), Error>)
        requires
            old(self).wf(),
        ensures
            final(self).wf(),
            final(self).remove_ip_handled(old(self), ip),
            result is Ok,
    {
        let ghost before = net::iface_view(self.iface).addrs;
        let addrs = net::iface_ip_addrs(&self.iface);
        let mut kept: Vec<(smoltcp::wire::IpAddress, u8)> = Vec::new();
        let mut i: usize = 0;
        proof {
            assert(before.take(0) =~= Seq::<(IpAddr, u8)>::empty());
            reveal(Seq::filter);
        }
        while i < addrs.len()
            invariant
                i <= addrs@.len(),
                addrs@.len() == before.len(),
                before == net::iface_view(self.iface).addrs,
                *self == *old(self),
                self.wf(),
                forall|j: int|
                    0 <= j < addrs@.len() ==> (
                    net::ip_view((#[trigger] addrs@[j]).0),
                    addrs@[j].1,
                ) == before[j],
                kept@.map_values(|a: (smoltcp::wire::IpAddress, u8)| (net::ip_view(a.0), a.1))
                    == without_ip(before.take(i as int), ip),
                kept@.len() <= i,
                forall|j: int|
                    0 <= j < kept@.len() ==> net::assignable(
                        net::ip_view((#[trigger] kept@[j]).0),
                    ) && kept@[j].1 <= net::ip_view(kept@[j].0).max_prefix_len(),
            decreases addrs@.len() - i,
        {
            let ghost view = |a: (smoltcp::wire::IpAddress, u8)| (net::ip_view(a.0), a.1);
            let ghost fewer = kept@;
            let (address, prefix_len) = addrs[i];
            proof {
                reveal(Seq::filter);
                assert(before.take(i + 1).drop_last() =~= before.take(i as int));
                assert(before[i as int] == (net::ip_view(address), prefix_len));
            }
            if net::smoltcp_to_ip_addr(address) != ip {
                kept.push((address, prefix_len));
                assert(kept@.map_values(view) =~= fewer.map_values(view).push(before[i as int]));
            }
            i = i + 1;
        }
        assert(before.take(i as int) =~= before);
        net::iface_set_ip_addrs(&mut self.iface, &kept);
        proof {
            let now = net::iface_view(self.iface).addrs;
            assert(now.len() == kept@.len());
            assert forall|j: int| 0 <= j < now.len() implies net::assignable(
                (#[trigger] now[j]).0,
            ) && now[j].1 <= now[j].0.max_prefix_len() by {
                assert(now[j] == (net::ip_view(kept@[j].0), kept@[j].1));
            }
        }
        Ok(())
    }

    /// The addresses of the interface.
    pub fn handle_get_ips(&self) -> (ips: Vec<(IpAddr, u8)>)
        ensures
            ips@ == net::iface_view(self.iface).addrs,
    {
        let addrs = net::iface_ip_addrs(&self.iface);
        let mut ips: Vec<(IpAddr, u8)> = Vec::new();
        let mut i: usize = 0;
        while i < addrs.len()
            invariant
                i <= addrs@.len(),
                addrs@.len() == net::iface_view(self.iface).addrs.len(),
                forall|j: int|
                    0 <= j < addrs@.len() ==> (
                    net::ip_view((#[trigger] addrs@[j]).0),
                    addrs@[j].1,
                ) == net::iface_view(self.iface).addrs[j],
                ips@ == net::iface_view(self.iface).addrs.take(i as int),
            decreases addrs@.len() - i,
        {
            let (address, prefix_len) = addrs[i];
            assert(addrs@[i as int] == (address, prefix_len));
            ips.push((net::smoltcp_to_ip_addr(address), prefix_len));
            i = i + 1;
            assert(ips@ =~= net::iface_view(self.iface).addrs.take(i as int));
        }
        assert(ips@ =~= net::iface_view(self.iface).addrs);
        ips
    }

    /// Whether a TCP socket of this stack has the handle.
    pub fn holds_tcp(&self, handle: SocketHandle) -> (holds: bool)
        ensures
            holds == is_tcp(self.socks(), handle),
    {
        self.holds(handle, true)
    }

    /// Whether a UDP socket of this stack has the handle.
    pub fn holds_udp(&self, handle: SocketHandle) -> (holds: bool)
        ensures
            holds == is_udp(self.socks(), handle),
    {
        self.holds(handle, false)
    }

    fn holds(&self, handle: SocketHandle, tcp: bool) -> (holds: bool)
        ensures
            holds == (self.socks().contains_key(handle) && (self.socks()[handle] is Tcp) == tcp),
    {
        let list = net::sockets_list(&self.sockets);
        let mut i: usize = 0;
        while i < list.len()
            invariant
                i <= list@.len(),
                forall|j: int| 0 <= j < i ==> (#[trigger] list@[j]).0 != handle,
                forall|j: int|
                    0 <= j < list@.len() ==> self.socks().contains_key((#[trigger] list@[j]).0)
                        && list@[j].1 == (self.socks()[list@[j].0] is Tcp),
                forall|h: SocketHandle|
                    #![trigger self.socks().contains_key(h)]
                    self.socks().contains_key(h) ==> exists|j: int|
                        0 <= j < list@.len() && (#[trigger] list@[j]).0 == h,
            decreases list@.len() - i,
        {
            if net::same_handle(list[i].0, handle) {
                assert(list@[i as int].0 == handle);
                return list[i].1 == tcp;
            }
            i = i + 1;
        }
        false
    }
}

/// The addresses other than `ip`, in the order in which they stand.
pub open spec fn without_ip(addrs: Seq<(IpAddr, u8)>, ip: IpAddr) -> Seq<(IpAddr, u8)> {
    addrs.filter(|a: (IpAddr, u8)| a.0 != ip)
}

/// The configuration that a stack can be started with: an address that an
/// interface can have, and a single host as the gateway.
pub open spec fn config_ok(config: StackConfig) -> bool {
    &&& net::assignable(config.ip)
    &&& config.prefix_len <= config.ip.max_prefix_len()
    &&& net::unicast(config.gateway)
}

/// Whether a stack can be started with this configuration.
pub fn is_config_ok(config: &StackConfig) -> (yes: bool)
    ensures
        yes == config_ok(*config),
{
    net::is_assignable(config.ip) && config.prefix_len <= config.ip.max_prefix_len()
        && net::is_unicast(config.gateway)
}

/// The interface as the stack sets it up: with an address, a default route and
/// traffic for any address.
pub open spec fn iface_set_up(iface: IfaceView, config: StackConfig) -> IfaceView {
    let with_addr = IfaceView {
        addrs: iface.addrs.push((config.ip, config.prefix_len)),
        ..iface
    };
    IfaceView { any_ip: true, ..net::with_default_route(with_addr, config.gateway) }
}

/// The interface has room for the default route.
pub open spec fn route_fits(iface: IfaceView, config: StackConfig) -> bool {
    net::without_route(iface.routes, net::everything(config.gateway)).len() < iface.route_limit
}

impl<R> Stack<R> {
    /// What a command can ask for: closing a socket of the right kind, adding
    /// an address that an interface can have.
    pub open spec fn accepts(&self, command: StackCommand<R>) -> bool {
        match command {
            StackCommand::TcpClose { handle } => is_tcp(self.socks(), handle),
            StackCommand::UdpClose { handle } => is_udp(self.socks(), handle),
            StackCommand::AddIp { ip, prefix_len } => net::assignable(ip) && prefix_len
                <= ip.max_prefix_len(),
            _ => true,
        }
    }

    /// Whether the command asks for something that the stack can do.
    pub fn can_handle(&self, command: &StackCommand<R>) -> (yes: bool)
        ensures
            yes == self.accepts(*command),
    {
        match command {
            StackCommand::TcpClose { handle } => self.holds_tcp(*handle),
            StackCommand::UdpClose { handle } => self.holds_udp(*handle),
            StackCommand::AddIp { ip, prefix_len } => net::is_assignable(*ip) && *prefix_len
                <= ip.max_prefix_len(),
            _ => true,
        }
    }

    /// What a command leads to, when `port` is the next ephemeral port.
    pub open spec fn handled(
        &self,
        before: &Stack<R>,
        command: StackCommand<R>,
        port: u16,
        reply: Reply<R>,
    ) -> bool {
        match command {
            StackCommand::TcpConnect { local_ip, addr, response } => match reply {
                Reply::Tcp(completion) => self.connect_handled(
                    before,
                    local_ip,
                    addr,
                    response,
                    port,
                    ConnectOutcome::Refused(completion),
                ),
                Reply::Nothing => exists|handle: SocketHandle|
                    #[trigger] self.connect_handled(
                        before,
                        local_ip,
                        addr,
                        response,
                        port,
                        ConnectOutcome::Started(handle),
                    ),
                _ => false,
            },
            StackCommand::TcpListen { addr, backlog } => reply is Listening && self.listen_handled(
                before,
                addr,
                backlog,
                reply->Listening_0,
            ),
            StackCommand::TcpAccept { handle, response } => match reply {
                Reply::Tcp(completion) => self.accept_handled(
                    before,
                    handle,
                    response,
                    Some(completion),
                ),
                Reply::Nothing => self.accept_handled(before, handle, response, None),
                _ => false,
            },
            StackCommand::TcpListenerClose { handle } => reply is Nothing && self.listener_closed(
                before,
                handle,
            ),
            StackCommand::TcpClose { handle } => reply is Nothing && self.tcp_closed(
                before,
                handle,
            ),
            StackCommand::UdpBind { addr } => reply is Bound && self.bind_handled(
                before,
                addr,
                port,
                reply->Bound_0,
            ),
            StackCommand::UdpClose { handle } => reply is Nothing && self.udp_closed(
                before,
                handle,
            ),
            StackCommand::AddIp { ip, prefix_len } => reply is Ip && self.add_ip_handled(
                before,
                ip,
                prefix_len,
                reply->Ip_0,
            ),
            StackCommand::RemoveIp { ip } => reply is Ip && reply->Ip_0 is Ok
                && self.remove_ip_handled(before, ip),
            StackCommand::GetIps => reply is Ips && reply->Ips_0@ == net::iface_view(
                before.iface,
            ).addrs && self.same(before),
        }
    }

    /// The next ephemeral port after a command.
    pub open spec fn port_after(command: StackCommand<R>, port: u16) -> u16 {
        match command {
            StackCommand::TcpConnect { .. } => super::next_port(port),
            StackCommand::UdpBind { addr } => if addr.spec_port() == 0 {
                super::next_port(port)
            } else {
                port
            },
            _ => port,
        }
    }

    /// Carry out a command.
    pub fn handle_command(
        &mut self,
        command: StackCommand<R>,
        ports: &mut EphemeralPorts,
    ) -> (reply: Reply<R>)
        requires
            old(self).wf(),
            old(self).accepts(command),
        ensures
            final(self).wf(),
            final(ports).next() == Self::port_after(command, old(ports).next()),
            final(self).handled(old(self), command, old(ports).next(), reply),
    {
        match command {
            StackCommand::TcpConnect { local_ip, addr, response } => {
                match self.handle_tcp_connect(local_ip, addr, response, ports) {
                    ConnectOutcome::Started(_) => Reply::Nothing,
                    ConnectOutcome::Refused(completion) => Reply::Tcp(completion),
                }
            },
            StackCommand::TcpListen { addr, backlog } => Reply::Listening(
                self.handle_tcp_listen(addr, backlog),
            ),
            StackCommand::TcpAccept { handle, response } => {
                match self.handle_tcp_accept(handle, response) {
                    Some(completion) => Reply::Tcp(completion),
                    None => Reply::Nothing,
                }
            },
            StackCommand::TcpListenerClose { handle } => {
                self.handle_tcp_listener_close(handle);
                Reply::Nothing
            },
            StackCommand::TcpClose { handle } => {
                self.handle_tcp_close(handle);
                Reply::Nothing
            },
            StackCommand::UdpBind { addr } => Reply::Bound(self.handle_udp_bind(addr, ports)),
            StackCommand::UdpClose { handle } => {
                self.handle_udp_close(handle);
                Reply::Nothing
            },
            StackCommand::AddIp { ip, prefix_len } => Reply::Ip(
                self.handle_add_ip(ip, prefix_len),
            ),
            StackCommand::RemoveIp { ip } => Reply::Ip(self.handle_remove_ip(ip)),
            StackCommand::GetIps => Reply::Ips(self.handle_get_ips()),
        }
    }

    /// Set up the interface and start with no sockets.
    pub fn new(iface: Interface, config: StackConfig) -> (result: Result<Stack<R>, Error>)
        requires
            config_ok(config),
            net::iface_view(iface).ok(),
        ensures
            ({
                let view = net::iface_view(iface);
                match result {
                    Ok(stack) => {
                        &&& view.addrs.len() < view.addr_limit && route_fits(view, config)
                        &&& stack.wf()
                        &&& stack.config == config
                        &&& net::iface_view(stack.iface) == iface_set_up(view, config)
                        &&& stack.socks().dom() == Set::<SocketHandle>::empty()
                        &&& stack.pending@.dom() == Set::<SocketHandle>::empty()
                        &&& stack.listeners@.dom() == Set::<SocketHandle>::empty()
                        &&& stack.tcp_states@.dom() == Set::<SocketHandle>::empty()
                        &&& stack.udp_states@.dom() == Set::<SocketHandle>::empty()
                    },
                    Err(error) => if view.addrs.len() >= view.addr_limit {
                        error.reads(ErrorKind::Other, "failed to add IP address"@)
                    } else {
                        !route_fits(view, config) && error.reads(
                            ErrorKind::Other,
                            "failed to add default route"@,
                        )
                    },
                }
            }),
    {
        let mut iface = iface;
        let ghost view = net::iface_view(iface);
        let ip = net::ip_addr_to_smoltcp(config.ip);
        if !net::iface_push_ip_addr(&mut iface, ip, config.prefix_len) {
            return Err(Error::new(ErrorKind::Other, "failed to add IP address"));
        }
        let routed: bool = match config.gateway {
            IpAddr::V4(v4) => net::iface_add_default_ipv4_route(&mut iface, v4),
            IpAddr::V6(v6) => net::iface_add_default_ipv6_route(&mut iface, v6),
        };
        if !routed {
            return Err(Error::new(ErrorKind::Other, "failed to add default route"));
        }
        proof {
            let with_addr = IfaceView {
                addrs: view.addrs.push((config.ip, config.prefix_len)),
                ..view
            };
            net::lemma_routes_ok(with_addr, config.gateway);
        }
        net::iface_set_any_ip(&mut iface, true);
        let stack = Stack {
            iface,
            sockets: net::sockets_new(),
            config,
            pending: HandleMap::new(),
            listeners: HandleMap::new(),
            tcp_states: HandleMap::new(),
            udp_states: HandleMap::new(),
            write_notify: Arc::new(new_notify()),
        };
        proof {
            assert(stack.pending@.dom() =~= Set::<SocketHandle>::empty());
            assert(stack.listeners@.dom() =~= Set::<SocketHandle>::empty());
            assert(stack.tcp_states@.dom() =~= Set::<SocketHandle>::empty());
            assert(stack.udp_states@.dom() =~= Set::<SocketHandle>::empty());
        }
        Ok(stack)
    }
}

} // verus!
