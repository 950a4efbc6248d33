//! What the commands of the stack do, told from what they are given and from what
//! is there before and after.

use vstd::prelude::*;

use smoltcp::iface::{Interface, SocketHandle, SocketSet};

use super::channels;
use super::handlers::{self, Accepted, ConnectOutcome};
use super::net::{self, SocketView, TcpState};
use super::{
    Bound, Completion, EphemeralPorts, ListenerState, Listening, PendingOp, Reply, Stack,
    StackCommand, StackConfig,
};
use crate::addr::{IpAddr, SocketAddr};
use crate::config::DEFAULT_TCP_BACKLOG;
use crate::error::{Error, ErrorKind};

verus! {

/// A command to connect goes to the address that it names, whatever the stack is
/// configured with: the new socket is on its way from the local address to that
/// IP address and that port, and whoever waits will be told of these two ends. It
/// is refused just where one of the ends cannot be connected.
pub proof fn connecting_goes_to_the_address<R>(
    stack: &mut Stack<R>,
    local_ip: Option<IpAddr>,
    addr: SocketAddr,
    response: R,
    ports: &mut EphemeralPorts,
    outcome: ConnectOutcome<R>,
)
    requires
        call_ensures(
            Stack::<R>::handle_tcp_connect,
            (stack, local_ip, addr, response, ports),
            outcome,
        ),
    ensures
        ({
            let (to_ip, to_port) = match addr {
                SocketAddr::V4(v4) => (IpAddr::V4(v4.ip), v4.port),
                SocketAddr::V6(v6) => (IpAddr::V6(v6.ip), v6.port),
            };
            let from_ip = match local_ip {
                Some(ip) => ip,
                None => old(stack).config.ip,
            };
            let to_nowhere = match to_ip {
                IpAddr::V4(v4) => v4.bits == 0,
                IpAddr::V6(v6) => v6.bits == 0,
            };
            let from_nowhere = match from_ip {
                IpAddr::V4(v4) => v4.bits == 0,
                IpAddr::V6(v6) => v6.bits == 0,
            };
            let was = net::sockets_view(old(stack).sockets);
            let now = net::sockets_view(final(stack).sockets);
            &&& outcome is Started <==> to_port != 0 && !to_nowhere && !from_nowhere && (
            to_ip is V4 <==> from_ip is V4)
            &&& outcome matches ConnectOutcome::Started(handle) ==> {
                &&& !was.contains_key(handle)
                &&& now.dom() == was.dom().insert(handle)
                &&& now[handle] matches SocketView::Tcp(socket) && {
                    &&& socket.state == TcpState::SynSent
                    &&& socket.tuple matches Some(tuple) && {
                        &&& tuple.remote.ip == to_ip && tuple.remote.port == to_port
                        &&& tuple.local.ip == from_ip && tuple.local.port == old(ports).next()
                    }
                    &&& socket.outgoing.len() == 0 && socket.incoming.len() == 0
                    &&& socket.send_capacity == 65535 && socket.recv_capacity == 65535
                }
                &&& final(stack).pending@.dom() == old(stack).pending@.dom().insert(handle)
                &&& final(stack).pending@[handle] matches PendingOp::TcpConnect {
                    local_addr,
                    peer_addr,
                    response: waiting,
                    channels,
                } && {
                    &&& peer_addr == addr
                    &&& waiting == response
                    &&& channels.write_notify == old(stack).write_notify
                    &&& channels::sender_view(channels.write_tx).channel
                        == channels::receiver_view(
                        final(stack).tcp_states@[handle].write_rx,
                    ).channel
                    &&& final(stack).tcp_states@[handle].read_tx matches Some(read_tx)
                        && channels::sender_view(read_tx).channel == channels::receiver_view(
                        channels.read_rx,
                    ).channel
                    &&& match local_addr {
                        SocketAddr::V4(v4) => IpAddr::V4(v4.ip) == from_ip && v4.port
                            == old(ports).next(),
                        SocketAddr::V6(v6) => IpAddr::V6(v6.ip) == from_ip && v6.port
                            == old(ports).next(),
                    }
                }
                &&& final(stack).tcp_states@.dom() == old(stack).tcp_states@.dom().insert(handle)
                &&& forall|h: SocketHandle|
                    h != handle && old(stack).pending@.contains_key(h)
                        ==> #[trigger] final(stack).pending@[h] == old(stack).pending@[h]
                &&& forall|h: SocketHandle|
                    h != handle && old(stack).tcp_states@.contains_key(h)
                        ==> #[trigger] final(stack).tcp_states@[h] == old(stack).tcp_states@[h]
            }
            &&& outcome matches ConnectOutcome::Refused(completion) ==> {
                &&& completion.handle is None
                &&& completion.response == response
                &&& completion.result matches Err(error) && error.kind == ErrorKind::Other
                    && error.message@ == "connect failed: "@ + "unaddressable destination"@
                &&& now == was
                &&& final(stack).pending@ == old(stack).pending@
                &&& final(stack).tcp_states@ == old(stack).tcp_states@
            }
            &&& forall|h: SocketHandle|
                was.contains_key(h) ==> #[trigger] now[h] == was[h]
            &&& final(stack).listeners@ == old(stack).listeners@
            &&& final(stack).udp_states@ == old(stack).udp_states@
            &&& final(stack).config == old(stack).config
            &&& final(stack).write_notify == old(stack).write_notify
            &&& net::iface_view(final(stack).iface) == net::iface_view(old(stack).iface)
        }),
        old(ports).next() >= 49152,
        final(ports).next() == if old(ports).next() == 65535 {
            49152
        } else {
            old(ports).next() + 1
        },
{
    match outcome {
        ConnectOutcome::Started(handle) => {
            let was = net::sockets_view(old(stack).sockets);
            let now = net::sockets_view(final(stack).sockets);
            assert(now.dom() =~= was.dom().insert(handle));
            assert(final(stack).pending@.dom() =~= old(stack).pending@.dom().insert(handle));
            assert(final(stack).tcp_states@.dom() =~= old(stack).tcp_states@.dom().insert(handle));
        },
        _ => {},
    }
}

/// What whoever waits for a connection will be told are, at any moment, the two
/// ends that the connection's socket has.
pub proof fn waiting_for_the_ends_of_the_socket<R>(stack: Stack<R>, handle: SocketHandle)
    requires
        stack.wf(),
        stack.pending@.contains_key(handle),
    ensures
        net::sockets_view(stack.sockets)[handle] is Tcp,
        stack.pending@[handle] matches PendingOp::TcpConnect { local_addr, peer_addr, .. } ==> (
        net::sockets_view(stack.sockets)[handle]->Tcp_0.tuple matches Some(tuple) ==> {
            &&& match local_addr {
                SocketAddr::V4(v4) => tuple.local.ip == IpAddr::V4(v4.ip) && tuple.local.port
                    == v4.port,
                SocketAddr::V6(v6) => tuple.local.ip == IpAddr::V6(v6.ip) && tuple.local.port
                    == v6.port,
            }
            &&& match peer_addr {
                SocketAddr::V4(v4) => tuple.remote.ip == IpAddr::V4(v4.ip) && tuple.remote.port
                    == v4.port,
                SocketAddr::V6(v6) => tuple.remote.ip == IpAddr::V6(v6.ip) && tuple.remote.port
                    == v6.port,
            }
        }),
{
}

/// What whoever waits for a connection will be given are, at any moment, the other
/// ends of the channels that the stack keeps for the socket.
pub proof fn waiting_for_the_channels_of_the_socket<R>(stack: Stack<R>, handle: SocketHandle)
    requires
        stack.wf(),
        stack.pending@.contains_key(handle),
        stack.tcp_states@.contains_key(handle),
    ensures
        stack.pending@[handle] matches PendingOp::TcpConnect { channels, .. } ==> {
            let state = stack.tcp_states@[handle];
            &&& channels::sender_view(channels.write_tx).channel == channels::receiver_view(
                state.write_rx,
            ).channel
            &&& state.read_tx matches Some(read_tx) ==> channels::sender_view(read_tx).channel
                == channels::receiver_view(channels.read_rx).channel
        },
{
}

/// At any moment, every socket of a listener that listens does so at the
/// listener's own address and port, or at any address where the listener's is
/// unspecified.
pub proof fn listeners_listen_at_their_address<R>(stack: Stack<R>, handle: SocketHandle, i: int)
    requires
        stack.wf(),
        stack.listeners@.contains_key(handle),
        0 <= i < stack.listeners@[handle].listening_handles@.len(),
    ensures
        ({
            let listener = stack.listeners@[handle];
            let socket = net::sockets_view(stack.sockets)[listener.listening_handles@[i]];
            &&& socket is Tcp
            &&& socket->Tcp_0.state == TcpState::Listen ==> match listener.addr {
                SocketAddr::V4(v4) => {
                    &&& socket->Tcp_0.listening_on.port == v4.port
                    &&& v4.ip.bits == 0 ==> socket->Tcp_0.listening_on.ip is None
                    &&& v4.ip.bits != 0 ==> socket->Tcp_0.listening_on.ip == Some(IpAddr::V4(v4.ip))
                },
                SocketAddr::V6(v6) => {
                    &&& socket->Tcp_0.listening_on.port == v6.port
                    &&& v6.ip.bits == 0 ==> socket->Tcp_0.listening_on.ip is None
                    &&& v6.ip.bits != 0 ==> socket->Tcp_0.listening_on.ip == Some(IpAddr::V6(v6.ip))
                },
            }
        }),
{
    let listener = stack.listeners@[handle];
    assert(super::is_tcp(stack.socks(), listener.listening_handles@[i]));
}

/// A command to listen opens as many sockets as the backlog says, at least one,
/// and all of them listen at the address. It is refused for port 0, and where a
/// listener has the port.
pub proof fn listening_opens_the_backlog<R>(
    stack: &mut Stack<R>,
    addr: SocketAddr,
    backlog: usize,
    result: Result<Listening, Error>,
)
    requires
        call_ensures(Stack::<R>::handle_tcp_listen, (stack, addr, backlog), result),
    ensures
        ({
            let (ip, port) = match addr {
                SocketAddr::V4(v4) => (
                    if v4.ip.bits == 0 {
                        None
                    } else {
                        Some(IpAddr::V4(v4.ip))
                    },
                    v4.port,
                ),
                SocketAddr::V6(v6) => (
                    if v6.ip.bits == 0 {
                        None
                    } else {
                        Some(IpAddr::V6(v6.ip))
                    },
                    v6.port,
                ),
            };
            let was = net::sockets_view(old(stack).sockets);
            let now = net::sockets_view(final(stack).sockets);
            let in_use = exists|h: SocketHandle| #[trigger]
                old(stack).listeners@.contains_key(h) && match old(stack).listeners@[h].addr {
                    SocketAddr::V4(v4) => v4.port == port,
                    SocketAddr::V6(v6) => v6.port == port,
                };
            &&& result is Ok <==> port != 0 && !in_use
            &&& result matches Err(error) ==> {
                &&& port == 0 ==> error.kind == ErrorKind::InvalidInput && error.message@
                    == "cannot listen on port 0"@
                &&& port != 0 ==> error.kind == ErrorKind::AddrInUse && error.message@
                    == "address already in use"@
                &&& now == was
                &&& final(stack).listeners@ == old(stack).listeners@
            }
            &&& result matches Ok(listening) ==> {
                let listener = final(stack).listeners@[listening.handle];
                let handles = listener.listening_handles@;
                &&& listening.addr == addr
                &&& listener.addr == addr
                &&& backlog > 0 ==> handles.len() == backlog
                &&& backlog == 0 ==> handles.len() == 1
                &&& handles[0] == listening.handle
                &&& handles.no_duplicates()
                &&& forall|i: int|
                    0 <= i < handles.len() ==> {
                        &&& !was.contains_key(#[trigger] handles[i])
                        &&& now.contains_key(handles[i])
                        &&& now[handles[i]] matches SocketView::Tcp(socket) && {
                            &&& socket.state == TcpState::Listen
                            &&& socket.listening_on.ip == ip
                            &&& socket.listening_on.port == port
                            &&& socket.tuple is None
                            &&& socket.outgoing.len() == 0 && socket.incoming.len() == 0
                            &&& socket.send_capacity == 65535 && socket.recv_capacity == 65535
                        }
                    }
                &&& forall|h: SocketHandle| #[trigger]
                    now.contains_key(h) ==> was.contains_key(h) || handles.contains(h)
                &&& final(stack).listeners@ == old(stack).listeners@.insert(
                    listening.handle,
                    listener,
                )
            }
            &&& forall|h: SocketHandle| #[trigger]
                was.contains_key(h) ==> now.contains_key(h) && now[h] == was[h]
            &&& final(stack).pending@ == old(stack).pending@
            &&& final(stack).tcp_states@ == old(stack).tcp_states@
            &&& final(stack).udp_states@ == old(stack).udp_states@
            &&& final(stack).config == old(stack).config
            &&& final(stack).write_notify == old(stack).write_notify
            &&& net::iface_view(final(stack).iface) == net::iface_view(old(stack).iface)
        }),
{
}

/// The first of a listener's sockets that is connected is handed out, with the two
/// ends that it has, and is the listener's no more. In its place a new socket
/// listens, at the listener's own address. Nothing else changes, and nothing at all
/// where no socket is connected.
pub proof fn accepting_puts_a_listener_in_place(
    sockets: &mut SocketSet<'static>,
    state: &mut ListenerState,
    accepted: Option<Accepted>,
)
    requires
        call_ensures(handlers::try_accept_socket, (sockets, state), accepted),
    ensures
        ({
            let (ip, port) = match old(state).addr {
                SocketAddr::V4(v4) => (
                    if v4.ip.bits == 0 {
                        None
                    } else {
                        Some(IpAddr::V4(v4.ip))
                    },
                    v4.port,
                ),
                SocketAddr::V6(v6) => (
                    if v6.ip.bits == 0 {
                        None
                    } else {
                        Some(IpAddr::V6(v6.ip))
                    },
                    v6.port,
                ),
            };
            let was = net::sockets_view(*old(sockets));
            let now = net::sockets_view(*final(sockets));
            let list = old(state).listening_handles@;
            let next = final(state).listening_handles@;
            &&& final(state).addr == old(state).addr
            &&& next.len() == list.len()
            &&& accepted is None ==> {
                &&& now == was
                &&& next == list
                &&& forall|i: int|
                    0 <= i < list.len() ==> was[#[trigger] list[i]]->Tcp_0.state
                        != TcpState::Established || was[list[i]]->Tcp_0.tuple is None
            }
            &&& accepted matches Some(accepted) ==> {
                let new = next.last();
                &&& exists|i: int|
                    {
                        &&& 0 <= i < list.len()
                        &&& accepted.handle == #[trigger] list[i]
                        &&& forall|j: int|
                            0 <= j < i ==> was[#[trigger] list[j]]->Tcp_0.state
                                != TcpState::Established || was[list[j]]->Tcp_0.tuple is None
                        &&& forall|j: int| 0 <= j < i ==> #[trigger] next[j] == list[j]
                        &&& forall|j: int|
                            i <= j < list.len() - 1 ==> #[trigger] next[j] == list[j + 1]
                    }
                &&& was[accepted.handle]->Tcp_0.state == TcpState::Established
                &&& was[accepted.handle]->Tcp_0.tuple matches Some(tuple) && {
                    &&& match accepted.peer {
                        SocketAddr::V4(v4) => tuple.remote.ip == IpAddr::V4(v4.ip)
                            && tuple.remote.port == v4.port,
                        SocketAddr::V6(v6) => tuple.remote.ip == IpAddr::V6(v6.ip)
                            && tuple.remote.port == v6.port,
                    }
                    &&& match accepted.local {
                        SocketAddr::V4(v4) => tuple.local.ip == IpAddr::V4(v4.ip)
                            && tuple.local.port == v4.port,
                        SocketAddr::V6(v6) => tuple.local.ip == IpAddr::V6(v6.ip)
                            && tuple.local.port == v6.port,
                    }
                }
                &&& !was.contains_key(new)
                &&& now.dom() == was.dom().insert(new)
                &&& now[new] matches SocketView::Tcp(socket) && {
                    &&& socket.state == TcpState::Listen
                    &&& socket.listening_on.ip == ip
                    &&& socket.listening_on.port == port
                    &&& socket.tuple is None
                    &&& socket.outgoing.len() == 0 && socket.incoming.len() == 0
                    &&& socket.send_capacity == 65535 && socket.recv_capacity == 65535
                }
            }
            &&& forall|h: SocketHandle|
                was.contains_key(h) ==> #[trigger] now[h] == was[h]
        }),
{
    let was = net::sockets_view(*old(sockets));
    let now = net::sockets_view(*final(sockets));
    let list = old(state).listening_handles@;
    let next = final(state).listening_handles@;
    match accepted {
        None => {
            assert forall|i: int| 0 <= i < list.len() implies was[#[trigger] list[i]]->Tcp_0.state
                != TcpState::Established || was[list[i]]->Tcp_0.tuple is None by {
                assert(!handlers::ready(was, list[i]));
            }
        },
        Some(accepted) => {
            let i = choose|i: int|
                #[trigger] handlers::took_connection(
                    was,
                    now,
                    *old(state),
                    *final(state),
                    i,
                    accepted,
                );
            assert(now.dom() =~= was.dom().insert(next.last()));
            assert(accepted.handle == list[i]);
            assert forall|j: int| 0 <= j < i implies was[#[trigger] list[j]]->Tcp_0.state
                != TcpState::Established || was[list[j]]->Tcp_0.tuple is None by {
                assert(!handlers::ready(was, list[j]));
            }
        },
    }
}

/// A command to accept is answered at once where one of the listener's sockets is
/// connected: with the two ends that the socket has, and with channels of its own.
/// Where none is, the answer is waited for; where there is no such listener, the
/// command is refused.
pub proof fn accepting_takes_what_is_connected<R>(
    stack: &mut Stack<R>,
    handle: SocketHandle,
    response: R,
    completion: Option<Completion<R>>,
)
    requires
        call_ensures(Stack::<R>::handle_tcp_accept, (stack, handle, response), completion),
    ensures
        ({
            let was = net::sockets_view(old(stack).sockets);
            let now = net::sockets_view(final(stack).sockets);
            let known = old(stack).listeners@.contains_key(handle);
            let list = old(stack).listeners@[handle].listening_handles@;
            let connected = exists|i: int|
                0 <= i < list.len() && was[#[trigger] list[i]]->Tcp_0.state
                    == TcpState::Established && was[list[i]]->Tcp_0.tuple is Some;
            &&& completion is Some && completion->0.result is Err <==> !known
            &&& completion is None <==> known && !connected
            &&& completion matches Some(completion) ==> {
                &&& completion.handle == Some(handle)
                &&& completion.response == response
                &&& final(stack).pending@ == old(stack).pending@
                &&& completion.result matches Err(error) ==> error.kind == ErrorKind::InvalidInput
                    && error.message@ == "not a listener handle"@
            }
            &&& completion is None ==> final(stack).pending@ == old(stack).pending@.insert(
                handle,
                PendingOp::TcpAccept { response },
            )
            &&& completion is Some && completion->0.result is Ok ==> {
                let connected = completion->0.result->Ok_0;
                &&& list.contains(connected.handle)
                &&& was[connected.handle]->Tcp_0.state == TcpState::Established
                &&& was[connected.handle]->Tcp_0.tuple matches Some(tuple) && {
                    &&& match connected.peer {
                        SocketAddr::V4(v4) => tuple.remote.ip == IpAddr::V4(v4.ip)
                            && tuple.remote.port == v4.port,
                        SocketAddr::V6(v6) => tuple.remote.ip == IpAddr::V6(v6.ip)
                            && tuple.remote.port == v6.port,
                    }
                    &&& match connected.local {
                        SocketAddr::V4(v4) => tuple.local.ip == IpAddr::V4(v4.ip)
                            && tuple.local.port == v4.port,
                        SocketAddr::V6(v6) => tuple.local.ip == IpAddr::V6(v6.ip)
                            && tuple.local.port == v6.port,
                    }
                }
                &&& connected.channels.write_notify == old(stack).write_notify
                &&& final(stack).tcp_states@.dom() == old(stack).tcp_states@.dom().insert(
                    connected.handle,
                )
                &&& channels::sender_view(connected.channels.write_tx).channel
                    == channels::receiver_view(
                    final(stack).tcp_states@[connected.handle].write_rx,
                ).channel
                &&& final(stack).tcp_states@[connected.handle].read_tx matches Some(read_tx)
                    && channels::sender_view(read_tx).channel == channels::receiver_view(
                    connected.channels.read_rx,
                ).channel
                &&& forall|h: SocketHandle|
                    h != connected.handle && old(stack).tcp_states@.contains_key(h)
                        ==> #[trigger] final(stack).tcp_states@[h] == old(stack).tcp_states@[h]
                &&& exists|i: int|
                    0 <= i < list.len() && #[trigger] list[i] == connected.handle && forall|j: int|
                        0 <= j < i ==> was[#[trigger] list[j]]->Tcp_0.state
                            != TcpState::Established || was[list[j]]->Tcp_0.tuple is None
                &&& !was.contains_key(final(stack).listeners@[handle].listening_handles@.last())
                &&& now[final(stack).listeners@[handle].listening_handles@.last()] matches SocketView::Tcp(
                    socket,
                ) && socket.state == TcpState::Listen && match old(stack).listeners@[handle].addr {
                    SocketAddr::V4(v4) => socket.listening_on.port == v4.port
                        && socket.listening_on.ip == if v4.ip.bits == 0 {
                        None
                    } else {
                        Some(IpAddr::V4(v4.ip))
                    },
                    SocketAddr::V6(v6) => socket.listening_on.port == v6.port
                        && socket.listening_on.ip == if v6.ip.bits == 0 {
                        None
                    } else {
                        Some(IpAddr::V6(v6.ip))
                    },
                }
                &&& final(stack).listeners@.dom() == old(stack).listeners@.dom()
                &&& final(stack).listeners@[handle].addr == old(stack).listeners@[handle].addr
                &&& final(stack).listeners@[handle].listening_handles@.len() == list.len()
                &&& now.dom() == was.dom().insert(
                    final(stack).listeners@[handle].listening_handles@.last(),
                )
            }
            &&& completion is None || completion->0.result is Err ==> {
                &&& now == was
                &&& final(stack).listeners@ == old(stack).listeners@
                &&& final(stack).tcp_states@ == old(stack).tcp_states@
            }
            &&& forall|h: SocketHandle|
                was.contains_key(h) ==> #[trigger] now[h] == was[h]
            &&& forall|h: SocketHandle|
                h != handle && old(stack).listeners@.contains_key(h)
                    ==> #[trigger] final(stack).listeners@[h] == old(stack).listeners@[h]
            &&& final(stack).udp_states@ == old(stack).udp_states@
            &&& final(stack).config == old(stack).config
            &&& final(stack).write_notify == old(stack).write_notify
            &&& net::iface_view(final(stack).iface) == net::iface_view(old(stack).iface)
        }),
{
    let was = net::sockets_view(old(stack).sockets);
    let now = net::sockets_view(final(stack).sockets);
    let list = old(stack).listeners@[handle].listening_handles@;
    match completion {
        None => {
            assert forall|i: int| 0 <= i < list.len() implies !(was[#[trigger] list[i]]->Tcp_0.state
                == TcpState::Established && was[list[i]]->Tcp_0.tuple is Some) by {
                assert(!handlers::ready(was, list[i]));
            }
        },
        Some(completion) => {
            match completion.result {
                Ok(connected) => {
                    let i = choose|i: int|
                        #[trigger] final(stack).connection_accepted(
                            old(stack),
                            handle,
                            i,
                            connected,
                        );
                    assert(list[i] == connected.handle);
                    let new = final(stack).listeners@[handle].listening_handles@.last();
                    assert forall|j: int| 0 <= j < i implies was[#[trigger] list[j]]->Tcp_0.state
                        != TcpState::Established || was[list[j]]->Tcp_0.tuple is None by {
                        assert(!handlers::ready(was, list[j]));
                    }
                    assert(now.dom() =~= was.dom().insert(new));
                    assert(final(stack).tcp_states@.dom() =~= old(stack).tcp_states@.dom().insert(
                        connected.handle,
                    ));
                    assert(final(stack).listeners@.dom() =~= old(stack).listeners@.dom());
                },
                Err(_) => {},
            }
        },
    }
}

/// Closing a listener closes those of its sockets that nobody has connected to, and
/// no others. The listener is gone, and nobody waits for it.
pub proof fn closing_a_listener_closes_what_listens<R>(stack: &mut Stack<R>, handle: SocketHandle)
    requires
        call_ensures(Stack::<R>::handle_tcp_listener_close, (stack, handle), ()),
    ensures
        ({
            let was = net::sockets_view(old(stack).sockets);
            let now = net::sockets_view(final(stack).sockets);
            let list = old(stack).listeners@[handle].listening_handles@;
            &&& now.dom() == was.dom()
            &&& forall|h: SocketHandle| #[trigger]
                was.contains_key(h) ==> if old(stack).listeners@.contains_key(handle)
                    && list.contains(h) && was[h]->Tcp_0.state == TcpState::Listen {
                    &&& now[h] matches SocketView::Tcp(socket) && {
                        &&& socket.state == TcpState::Closed
                        &&& socket.tuple == was[h]->Tcp_0.tuple
                        &&& socket.incoming == was[h]->Tcp_0.incoming
                        &&& socket.outgoing == was[h]->Tcp_0.outgoing
                    }
                } else {
                    now[h] == was[h]
                }
            &&& !final(stack).listeners@.contains_key(handle)
            &&& !final(stack).pending@.contains_key(handle)
            &&& forall|h: SocketHandle|
                h != handle ==> {
                    &&& #[trigger] final(stack).listeners@.contains_key(h) == old(stack).listeners@.contains_key(h)
                    &&& old(stack).listeners@.contains_key(h) ==> final(stack).listeners@[h]
                        == old(stack).listeners@[h]
                }
            &&& forall|h: SocketHandle|
                h != handle ==> {
                    &&& #[trigger] final(stack).pending@.contains_key(h) == old(stack).pending@.contains_key(h)
                    &&& old(stack).pending@.contains_key(h) ==> final(stack).pending@[h] == old(stack).pending@[h]
                }
            &&& final(stack).tcp_states@ == old(stack).tcp_states@
            &&& final(stack).udp_states@ == old(stack).udp_states@
            &&& final(stack).config == old(stack).config
            &&& final(stack).write_notify == old(stack).write_notify
            &&& net::iface_view(final(stack).iface) == net::iface_view(old(stack).iface)
        }),
{
    let list = old(stack).listeners@[handle].listening_handles@;
    assert(list.take(list.len() as int) =~= list);
}

/// Closing a TCP socket closes its sending half, as far as the handshake has come,
/// and gives up its channels. Nothing else changes.
pub proof fn closing_a_socket_closes_one_half<R>(stack: &mut Stack<R>, handle: SocketHandle)
    requires
        call_ensures(Stack::<R>::handle_tcp_close, (stack, handle), ()),
        net::sockets_view(old(stack).sockets).contains_key(handle),
    ensures
        ({
            let was = net::sockets_view(old(stack).sockets);
            let now = net::sockets_view(final(stack).sockets);
            let before = was[handle]->Tcp_0;
            &&& now.dom() == was.dom()
            &&& now[handle] matches SocketView::Tcp(after) && {
                &&& before.state == TcpState::Listen || before.state == TcpState::SynSent
                    ==> after.state == TcpState::Closed
                &&& before.state == TcpState::SynReceived || before.state == TcpState::Established
                    ==> after.state == TcpState::FinWait1
                &&& before.state == TcpState::CloseWait ==> after.state == TcpState::LastAck
                &&& before.state == TcpState::Closed || before.state == TcpState::FinWait1
                    || before.state == TcpState::FinWait2 || before.state == TcpState::Closing
                    || before.state == TcpState::LastAck || before.state == TcpState::TimeWait
                    ==> after.state == before.state
                &&& after.tuple == before.tuple
                &&& after.outgoing == before.outgoing
                &&& after.incoming == before.incoming
            }
            &&& forall|h: SocketHandle|
                h != handle && was.contains_key(h) ==> #[trigger] now[h] == was[h]
            &&& !final(stack).tcp_states@.contains_key(handle)
            &&& forall|h: SocketHandle|
                h != handle ==> {
                    &&& #[trigger] final(stack).tcp_states@.contains_key(h) == old(stack).tcp_states@.contains_key(h)
                    &&& old(stack).tcp_states@.contains_key(h) ==> final(stack).tcp_states@[h]
                        == old(stack).tcp_states@[h]
                }
            &&& final(stack).pending@ == old(stack).pending@
            &&& final(stack).listeners@ == old(stack).listeners@
            &&& final(stack).udp_states@ == old(stack).udp_states@
            &&& final(stack).config == old(stack).config
            &&& final(stack).write_notify == old(stack).write_notify
            &&& net::iface_view(final(stack).iface) == net::iface_view(old(stack).iface)
        }),
{
    let was = net::sockets_view(old(stack).sockets);
    let now = net::sockets_view(final(stack).sockets);
    assert(now.dom() =~= was.dom());
}

/// Closing a UDP socket unbinds it, drops what it has queued, and gives up its
/// channels. Nothing else changes.
pub proof fn closing_a_udp_socket_unbinds_it<R>(stack: &mut Stack<R>, handle: SocketHandle)
    requires
        call_ensures(Stack::<R>::handle_udp_close, (stack, handle), ()),
        net::sockets_view(old(stack).sockets).contains_key(handle),
    ensures
        ({
            let was = net::sockets_view(old(stack).sockets);
            let now = net::sockets_view(final(stack).sockets);
            &&& now.dom() == was.dom()
            &&& now[handle] matches SocketView::Udp(socket) && {
                &&& socket.bound_to.port == 0 && socket.bound_to.ip is None
                &&& socket.outgoing.len() == 0 && socket.incoming.len() == 0
            }
            &&& forall|h: SocketHandle|
                h != handle && was.contains_key(h) ==> #[trigger] now[h] == was[h]
            &&& !final(stack).udp_states@.contains_key(handle)
            &&& forall|h: SocketHandle|
                h != handle ==> {
                    &&& #[trigger] final(stack).udp_states@.contains_key(h) == old(stack).udp_states@.contains_key(h)
                    &&& old(stack).udp_states@.contains_key(h) ==> final(stack).udp_states@[h]
                        == old(stack).udp_states@[h]
                }
            &&& final(stack).pending@ == old(stack).pending@
            &&& final(stack).listeners@ == old(stack).listeners@
            &&& final(stack).tcp_states@ == old(stack).tcp_states@
            &&& final(stack).config == old(stack).config
            &&& final(stack).write_notify == old(stack).write_notify
            &&& net::iface_view(final(stack).iface) == net::iface_view(old(stack).iface)
        }),
{
    let was = net::sockets_view(old(stack).sockets);
    let now = net::sockets_view(final(stack).sockets);
    assert(now.dom() =~= was.dom());
}

/// Binding always succeeds: the new UDP socket takes what comes to the address,
/// or to any where that is unspecified, at the port that was asked for, or at the
/// next of the ephemeral ports where none was. It has room for a packet of any
/// size, and for 128 of them.
pub proof fn binding_takes_the_address<R>(
    stack: &mut Stack<R>,
    addr: SocketAddr,
    ports: &mut EphemeralPorts,
    result: Result<Bound, Error>,
)
    requires
        call_ensures(Stack::<R>::handle_udp_bind, (stack, addr, ports), result),
    ensures
        ({
            let (ip, asked) = match addr {
                SocketAddr::V4(v4) => (IpAddr::V4(v4.ip), v4.port),
                SocketAddr::V6(v6) => (IpAddr::V6(v6.ip), v6.port),
            };
            let any = match ip {
                IpAddr::V4(v4) => v4.bits == 0,
                IpAddr::V6(v6) => v6.bits == 0,
            };
            let port = if asked != 0 {
                asked
            } else {
                old(ports).next()
            };
            let was = net::sockets_view(old(stack).sockets);
            let now = net::sockets_view(final(stack).sockets);
            &&& asked == 0 ==> port >= 49152
            &&& asked == 0 && port == 65535 ==> final(ports).next() == 49152
            &&& asked == 0 && port != 65535 ==> final(ports).next() == port + 1
            &&& asked != 0 ==> final(ports).next() == old(ports).next()
            &&& result matches Ok(bound) && {
                &&& match bound.addr {
                    SocketAddr::V4(v4) => ip == IpAddr::V4(v4.ip) && v4.port == port,
                    SocketAddr::V6(v6) => ip == IpAddr::V6(v6.ip) && v6.port == port,
                }
                &&& !was.contains_key(bound.handle)
                &&& now.dom() == was.dom().insert(bound.handle)
                &&& now[bound.handle] matches SocketView::Udp(socket) && {
                    &&& socket.bound_to.port == port
                    &&& any ==> socket.bound_to.ip is None
                    &&& !any ==> socket.bound_to.ip == Some(ip)
                    &&& socket.outgoing.len() == 0 && socket.incoming.len() == 0
                    &&& forall|len: nat| len <= 65535 ==> #[trigger] socket.takes.contains(len)
                    &&& socket.slots == 128 && socket.bytes == 65535
                }
                &&& final(stack).udp_states@.dom() == old(stack).udp_states@.dom().insert(
                    bound.handle,
                )
                &&& forall|h: SocketHandle|
                    h != bound.handle && old(stack).udp_states@.contains_key(h)
                        ==> #[trigger] final(stack).udp_states@[h] == old(stack).udp_states@[h]
                &&& bound.channels.write_notify == old(stack).write_notify
                &&& channels::packet_sender_view(bound.channels.write_tx).channel
                    == channels::packet_receiver_view(
                    final(stack).udp_states@[bound.handle].write_rx,
                ).channel
                &&& final(stack).udp_states@[bound.handle].read_tx matches Some(read_tx)
                    && channels::packet_sender_view(read_tx).channel
                    == channels::packet_receiver_view(bound.channels.read_rx).channel
            }
            &&& forall|h: SocketHandle|
                was.contains_key(h) ==> #[trigger] now[h] == was[h]
            &&& final(stack).pending@ == old(stack).pending@
            &&& final(stack).listeners@ == old(stack).listeners@
            &&& final(stack).tcp_states@ == old(stack).tcp_states@
            &&& final(stack).config == old(stack).config
            &&& final(stack).write_notify == old(stack).write_notify
            &&& net::iface_view(final(stack).iface) == net::iface_view(old(stack).iface)
        }),
{
    let was = net::sockets_view(old(stack).sockets);
    let now = net::sockets_view(final(stack).sockets);
    let handle = result->Ok_0.handle;
    assert(now.dom() =~= was.dom().insert(handle));
    assert(final(stack).udp_states@.dom() =~= old(stack).udp_states@.dom().insert(handle));
}

/// An address is added behind those that are there. One that is there already
/// stays, and one for which there is no room is refused; either way no address
/// changes.
pub proof fn adding_puts_an_address_behind<R>(
    stack: &mut Stack<R>,
    ip: IpAddr,
    prefix_len: u8,
    result: Result<(), Error>,
)
    requires
        call_ensures(Stack::<R>::handle_add_ip, (stack, ip, prefix_len), result),
    ensures
        ({
            let was = net::iface_view(old(stack).iface);
            let now = net::iface_view(final(stack).iface);
            let there = exists|i: int|
                0 <= i < was.addrs.len() && (#[trigger] was.addrs[i]).0 == ip && was.addrs[i].1
                    == prefix_len;
            let fits = was.addrs.len() < was.addr_limit;
            &&& result is Ok <==> there || fits
            &&& result matches Err(error) ==> error.kind == ErrorKind::OutOfMemory
                && error.message@ == "address list full"@
            &&& !there && fits ==> {
                &&& now.addrs.len() == was.addrs.len() + 1
                &&& now.addrs.last() == (ip, prefix_len)
                &&& now.addrs.drop_last() == was.addrs
            }
            &&& there || !fits ==> now.addrs == was.addrs
            &&& now.routes == was.routes
            &&& now.any_ip == was.any_ip
            &&& final(stack).config == old(stack).config
            &&& final(stack).write_notify == old(stack).write_notify
            &&& net::sockets_view(final(stack).sockets) == net::sockets_view(old(stack).sockets)
            &&& final(stack).pending@ == old(stack).pending@
            &&& final(stack).listeners@ == old(stack).listeners@
            &&& final(stack).tcp_states@ == old(stack).tcp_states@
            &&& final(stack).udp_states@ == old(stack).udp_states@
        }),
{
    let was = net::iface_view(old(stack).iface).addrs;
    let now = net::iface_view(final(stack).iface).addrs;
    if old(stack).has_ip(ip, prefix_len) {
        let i = choose|i: int| 0 <= i < was.len() && was[i] == (ip, prefix_len);
        assert(was[i].0 == ip && was[i].1 == prefix_len);
    } else {
        assert forall|i: int| 0 <= i < was.len() implies !((#[trigger] was[i]).0 == ip && was[i].1
            == prefix_len) by {
            if was[i].0 == ip && was[i].1 == prefix_len {
                assert(was[i] == (ip, prefix_len));
            }
        }
        if now.len() == was.len() + 1 {
            assert(now.drop_last() =~= was);
        }
    }
}

pub(crate) proof fn lemma_filter_keeps(addrs: Seq<(IpAddr, u8)>, ip: IpAddr)
    ensures
        ({
            let rest = handlers::without_ip(addrs, ip);
            &&& forall|other: (IpAddr, u8)| #[trigger]
                rest.contains(other) <==> addrs.contains(other) && other.0 != ip
            &&& (forall|i: int| 0 <= i < addrs.len() ==> (#[trigger] addrs[i]).0 != ip) ==> rest
                == addrs
        }),
    decreases addrs.len(),
{
    reveal(Seq::filter);
    let rest = handlers::without_ip(addrs, ip);
    if addrs.len() > 0 {
        let init = addrs.drop_last();
        let last = addrs.last();
        lemma_filter_keeps(init, ip);
        let fewer = handlers::without_ip(init, ip);
        assert(addrs == init.push(last));
        assert forall|other: (IpAddr, u8)| #[trigger] rest.contains(other) <==> addrs.contains(other)
            && other.0 != ip by {
            assert(fewer.contains(other) <==> init.contains(other) && other.0 != ip);
            if addrs.contains(other) {
                let i = choose|i: int| 0 <= i < addrs.len() && addrs[i] == other;
                if i < init.len() {
                    assert(init[i] == other);
                }
            }
            if init.contains(other) {
                let i = choose|i: int| 0 <= i < init.len() && init[i] == other;
                assert(addrs[i] == other);
            }
            assert(addrs[addrs.len() - 1] == last);
            if last.0 != ip {
                assert(rest == fewer.push(last));
                if rest.contains(other) {
                    let i = choose|i: int| 0 <= i < rest.len() && rest[i] == other;
                    if i < fewer.len() {
                        assert(fewer[i] == other);
                    }
                }
                if fewer.contains(other) {
                    let i = choose|i: int| 0 <= i < fewer.len() && fewer[i] == other;
                    assert(rest[i] == other);
                }
                assert(rest[fewer.len() as int] == last);
            } else {
                assert(rest == fewer);
            }
        }
        if forall|i: int| 0 <= i < addrs.len() ==> (#[trigger] addrs[i]).0 != ip {
            assert forall|i: int| 0 <= i < init.len() implies (#[trigger] init[i]).0 != ip by {
                assert(init[i] == addrs[i]);
            }
            assert(addrs[addrs.len() - 1].0 != ip);
            assert(rest =~= addrs);
        }
    }
}

proof fn lemma_same_filter(
    addrs: Seq<(IpAddr, u8)>,
    ip: IpAddr,
    stays: spec_fn((IpAddr, u8)) -> bool,
)
    requires
        forall|entry: (IpAddr, u8)| #[trigger] stays(entry) <==> entry.0 != ip,
    ensures
        handlers::without_ip(addrs, ip) == addrs.filter(stays),
    decreases addrs.len(),
{
    reveal(Seq::filter);
    if addrs.len() > 0 {
        lemma_same_filter(addrs.drop_last(), ip, stays);
        assert(stays(addrs.last()) <==> addrs.last().0 != ip);
    }
}

/// Removing an address removes all entries with this address and no other: an
/// entry with another address is there after it just where it was before,
/// whatever its prefix length. Removing always succeeds.
pub proof fn removing_spares_the_others<R>(
    stack: &mut Stack<R>,
    ip: IpAddr,
    result: Result<(), Error>,
)
    requires
        call_ensures(Stack::<R>::handle_remove_ip, (stack, ip), result),
    ensures
        ({
            let was = net::iface_view(old(stack).iface);
            let now = net::iface_view(final(stack).iface);
            &&& result is Ok
            &&& forall|other: IpAddr, len: u8|
                other != ip ==> (#[trigger] now.addrs.contains((other, len)) <==> was.addrs.contains(
                    (other, len),
                ))
            &&& forall|len: u8| !(#[trigger] now.addrs.contains((ip, len)))
            &&& (forall|len: u8| !(#[trigger] was.addrs.contains((ip, len)))) ==> now.addrs
                == was.addrs
            &&& now.routes == was.routes
            &&& now.any_ip == was.any_ip
            &&& final(stack).config == old(stack).config
            &&& final(stack).write_notify == old(stack).write_notify
            &&& net::sockets_view(final(stack).sockets) == net::sockets_view(old(stack).sockets)
            &&& final(stack).pending@ == old(stack).pending@
            &&& final(stack).listeners@ == old(stack).listeners@
            &&& final(stack).tcp_states@ == old(stack).tcp_states@
            &&& final(stack).udp_states@ == old(stack).udp_states@
        }),
{
    let was = net::iface_view(old(stack).iface).addrs;
    lemma_filter_keeps(was, ip);
    if forall|len: u8| !(#[trigger] was.contains((ip, len))) {
        assert forall|i: int| 0 <= i < was.len() implies (#[trigger] was[i]).0 != ip by {
            if was[i].0 == ip {
                assert(was[i] == (ip, was[i].1));
                assert(was.contains((ip, was[i].1)));
            }
        }
    }
}

/// What stays after an address was removed stands in the order in which it stood.
pub proof fn removing_keeps_the_order<R>(
    stack: &mut Stack<R>,
    ip: IpAddr,
    result: Result<(), Error>,
    stays: spec_fn((IpAddr, u8)) -> bool,
)
    requires
        call_ensures(Stack::<R>::handle_remove_ip, (stack, ip), result),
        forall|entry: (IpAddr, u8)| #[trigger] stays(entry) <==> entry.0 != ip,
    ensures
        net::iface_view(final(stack).iface).addrs == net::iface_view(
            old(stack).iface,
        ).addrs.filter(stays),
{
    lemma_same_filter(net::iface_view(old(stack).iface).addrs, ip, stays);
}

/// The addresses that are told are those of the interface, one by one.
pub proof fn told_addresses_are_the_interfaces<R>(stack: &Stack<R>, ips: Vec<(IpAddr, u8)>, i: int)
    requires
        call_ensures(Stack::<R>::handle_get_ips, (stack,), ips),
        0 <= i,
    ensures
        ips@.len() == net::iface_view(stack.iface).addrs.len(),
        i < ips@.len() ==> ips@[i] == net::iface_view(stack.iface).addrs[i],
{
}

/// A command is carried out as its kind says: connecting starts with the address,
/// listening and binding answer with theirs, accepting, closing and the addresses
/// concern what is named, and no command does anything of another kind.
pub proof fn commands_do_what_they_say<R>(
    stack: &mut Stack<R>,
    command: StackCommand<R>,
    ports: &mut EphemeralPorts,
    reply: Reply<R>,
)
    requires
        call_ensures(Stack::<R>::handle_command, (stack, command, ports), reply),
    ensures
        ({
            let was = net::sockets_view(old(stack).sockets);
            let now = net::sockets_view(final(stack).sockets);
            let addrs_were = net::iface_view(old(stack).iface).addrs;
            let addrs = net::iface_view(final(stack).iface).addrs;
            let next = if old(ports).next() == 65535 {
                49152
            } else {
                old(ports).next() + 1
            };
            &&& final(stack).config == old(stack).config
            &&& final(stack).write_notify == old(stack).write_notify
            &&& match command {
                StackCommand::TcpConnect { local_ip, addr, response } => {
                    &&& final(ports).next() == next
                    &&& addrs == addrs_were
                    &&& final(stack).listeners@ == old(stack).listeners@
                    &&& match reply {
                        Reply::Nothing => exists|handle: SocketHandle|
                            {
                                &&& !was.contains_key(handle)
                                &&& final(stack).pending@.dom() == old(stack).pending@.dom().insert(
                                    handle,
                                )
                                &&& #[trigger] final(stack).pending@[handle] matches PendingOp::TcpConnect {
                                    peer_addr,
                                    response: waiting,
                                    ..
                                } && peer_addr == addr && waiting == response
                                &&& now[handle] matches SocketView::Tcp(socket) && socket.state
                                    == TcpState::SynSent && (socket.tuple matches Some(tuple)
                                    && tuple.local.port == old(ports).next() && tuple.local.ip == (
                                match local_ip {
                                    Some(ip) => ip,
                                    None => old(stack).config.ip,
                                }) && match addr {
                                    SocketAddr::V4(v4) => tuple.remote.ip == IpAddr::V4(v4.ip)
                                        && tuple.remote.port == v4.port,
                                    SocketAddr::V6(v6) => tuple.remote.ip == IpAddr::V6(v6.ip)
                                        && tuple.remote.port == v6.port,
                                })
                            },
                        Reply::Tcp(completion) => {
                            &&& completion.response == response
                            &&& completion.result is Err
                            &&& now == was
                            &&& final(stack).pending@ == old(stack).pending@
                        },
                        _ => false,
                    }
                },
                StackCommand::TcpListen { addr, backlog } => {
                    &&& final(ports).next() == old(ports).next()
                    &&& addrs == addrs_were
                    &&& reply matches Reply::Listening(result) && {
                        &&& result matches Ok(listening) ==> {
                            &&& listening.addr == addr
                            &&& !was.contains_key(listening.handle)
                            &&& final(stack).listeners@.dom() == old(stack).listeners@.dom().insert(
                                listening.handle,
                            )
                            &&& final(stack).listeners@[listening.handle].addr == addr
                            &&& backlog > 0 ==> final(stack).listeners@[listening.handle].listening_handles@.len() == backlog
                        }
                        &&& result is Err ==> final(stack).listeners@ == old(stack).listeners@
                            && now == was
                    }
                },
                StackCommand::TcpAccept { handle, response } => {
                    &&& final(ports).next() == old(ports).next()
                    &&& addrs == addrs_were
                    &&& match reply {
                        Reply::Nothing => old(stack).listeners@.contains_key(handle) && final(stack).pending@ == old(stack).pending@.insert(
                            handle,
                            PendingOp::TcpAccept { response },
                        ) && now == was,
                        Reply::Tcp(completion) => {
                            &&& completion.response == response
                            &&& completion.handle == Some(handle)
                            &&& completion.result is Ok <==> old(stack).listeners@.contains_key(
                                handle,
                            )
                            &&& completion.result matches Ok(connected) ==> old(stack).listeners@[handle].listening_handles@.contains(connected.handle)
                                && was[connected.handle]->Tcp_0.state == TcpState::Established
                        },
                        _ => false,
                    }
                },
                StackCommand::TcpListenerClose { handle } => {
                    &&& final(ports).next() == old(ports).next()
                    &&& addrs == addrs_were
                    &&& reply is Nothing
                    &&& final(stack).listeners@ == old(stack).listeners@.remove(handle)
                    &&& final(stack).pending@ == old(stack).pending@.remove(handle)
                    &&& final(stack).tcp_states@ == old(stack).tcp_states@
                },
                StackCommand::TcpClose { handle } => {
                    &&& final(ports).next() == old(ports).next()
                    &&& addrs == addrs_were
                    &&& reply is Nothing
                    &&& final(stack).listeners@ == old(stack).listeners@
                    &&& final(stack).pending@ == old(stack).pending@
                    &&& final(stack).tcp_states@ == old(stack).tcp_states@.remove(handle)
                    &&& now[handle] is Tcp
                    &&& was[handle]->Tcp_0.state == TcpState::Established
                        ==> now[handle]->Tcp_0.state == TcpState::FinWait1
                    &&& was[handle]->Tcp_0.state == TcpState::CloseWait
                        ==> now[handle]->Tcp_0.state == TcpState::LastAck
                },
                StackCommand::UdpBind { addr } => {
                    &&& addrs == addrs_were
                    &&& reply matches Reply::Bound(Ok(bound)) && {
                        &&& !was.contains_key(bound.handle)
                        &&& now[bound.handle] is Udp
                        &&& final(stack).udp_states@.dom() == old(stack).udp_states@.dom().insert(
                            bound.handle,
                        )
                        &&& match (addr, bound.addr) {
                            (SocketAddr::V4(asked), SocketAddr::V4(got)) => {
                                &&& got.ip == asked.ip
                                &&& asked.port != 0 ==> got.port == asked.port && final(ports).next() == old(ports).next()
                                &&& asked.port == 0 ==> got.port == old(ports).next() && final(ports).next() == next
                            },
                            (SocketAddr::V6(asked), SocketAddr::V6(got)) => {
                                &&& got.ip == asked.ip
                                &&& asked.port != 0 ==> got.port == asked.port && final(ports).next() == old(ports).next()
                                &&& asked.port == 0 ==> got.port == old(ports).next() && final(ports).next() == next
                            },
                            _ => false,
                        }
                    }
                },
                StackCommand::UdpClose { handle } => {
                    &&& final(ports).next() == old(ports).next()
                    &&& addrs == addrs_were
                    &&& reply is Nothing
                    &&& final(stack).udp_states@ == old(stack).udp_states@.remove(handle)
                    &&& now[handle] is Udp
                    &&& now[handle]->Udp_0.bound_to.port == 0
                },
                StackCommand::AddIp { ip, prefix_len } => {
                    &&& final(ports).next() == old(ports).next()
                    &&& now == was
                    &&& reply matches Reply::Ip(result) && {
                        &&& result is Ok <==> addrs.contains((ip, prefix_len))
                        &&& addrs == addrs_were || addrs == addrs_were.push((ip, prefix_len))
                    }
                },
                StackCommand::RemoveIp { ip } => {
                    &&& final(ports).next() == old(ports).next()
                    &&& now == was
                    &&& reply matches Reply::Ip(Ok(()))
                    &&& forall|other: IpAddr, len: u8| #[trigger]
                        addrs.contains((other, len)) <==> other != ip && addrs_were.contains(
                            (other, len),
                        )
                },
                StackCommand::GetIps => {
                    &&& final(ports).next() == old(ports).next()
                    &&& now == was
                    &&& addrs == addrs_were
                    &&& reply matches Reply::Ips(ips) && ips@ == addrs_were
                    &&& final(stack).pending@ == old(stack).pending@
                    &&& final(stack).listeners@ == old(stack).listeners@
                },
            }
        }),
{
    let was = net::sockets_view(old(stack).sockets);
    let addrs_were = net::iface_view(old(stack).iface).addrs;
    let addrs = net::iface_view(final(stack).iface).addrs;
    match command {
        StackCommand::TcpConnect { local_ip, addr, response } => {
            if reply is Nothing {
                let handle = choose|handle: SocketHandle|
                    #[trigger] final(stack).connect_handled(
                        old(stack),
                        local_ip,
                        addr,
                        response,
                        old(ports).next(),
                        ConnectOutcome::Started(handle),
                    );
                assert(final(stack).pending@.dom() =~= old(stack).pending@.dom().insert(handle));
                assert(final(stack).pending@[handle] is TcpConnect);
            }
        },
        StackCommand::TcpListen { addr, backlog } => {
            match reply->Listening_0 {
                Ok(listening) => {
                    assert(final(stack).listeners@.dom() =~= old(stack).listeners@.dom().insert(
                        listening.handle,
                    ));
                },
                Err(_) => {},
            }
        },
        StackCommand::TcpAccept { handle, response } => {
            match reply {
                Reply::Tcp(completion) => {
                    match completion.result {
                        Ok(connected) => {
                            let i = choose|i: int|
                                #[trigger] final(stack).connection_accepted(
                                    old(stack),
                                    handle,
                                    i,
                                    connected,
                                );
                            assert(old(stack).listeners@[handle].listening_handles@[i]
                                == connected.handle);
                        },
                        Err(_) => {},
                    }
                },
                _ => {},
            }
        },
        StackCommand::UdpBind { .. } => {
            let bound = reply->Bound_0->Ok_0;
            assert(final(stack).udp_states@.dom() =~= old(stack).udp_states@.dom().insert(
                bound.handle,
            ));
        },
        StackCommand::AddIp { ip, prefix_len } => {
            if addrs == addrs_were.push((ip, prefix_len)) {
                assert(addrs[addrs_were.len() as int] == (ip, prefix_len));
            }
        },
        StackCommand::RemoveIp { ip } => {
            lemma_filter_keeps(addrs_were, ip);
        },
        _ => {},
    }
}

/// The stack can do what a command asks for, unless it is to close a socket of
/// another kind or none, or to add an address that stands for a group of hosts or
/// has too long a prefix.
pub proof fn few_commands_cannot_be_handled<R>(
    stack: &Stack<R>,
    command: &StackCommand<R>,
    yes: bool,
)
    requires
        call_ensures(Stack::<R>::can_handle, (stack, command), yes),
    ensures
        ({
            let sockets = net::sockets_view(stack.sockets);
            match *command {
                StackCommand::TcpClose { handle } => yes == (sockets.contains_key(handle)
                    && sockets[handle] is Tcp),
                StackCommand::UdpClose { handle } => yes == (sockets.contains_key(handle)
                    && sockets[handle] is Udp),
                StackCommand::AddIp { ip: IpAddr::V4(v4), prefix_len } => yes == (prefix_len <= 32
                    && v4.bits / 0x1000_0000 != 14 && v4.bits != 0xffff_ffff),
                StackCommand::AddIp { ip: IpAddr::V6(v6), prefix_len } => yes == (prefix_len <= 128
                    && v6.bits / 0x100_0000_0000_0000_0000_0000_0000_0000 != 0xff),
                _ => yes,
            }
        }),
{
}

/// The socket kinds are told apart.
pub proof fn kinds_are_told_apart<R>(
    stack: &Stack<R>,
    handle: SocketHandle,
    tcp: bool,
    udp: bool,
)
    requires
        call_ensures(Stack::<R>::holds_tcp, (stack, handle), tcp),
        call_ensures(Stack::<R>::holds_udp, (stack, handle), udp),
    ensures
        !(tcp && udp),
        tcp || udp <==> net::sockets_view(stack.sockets).contains_key(handle),
        tcp ==> net::sockets_view(stack.sockets)[handle] is Tcp,
        udp ==> net::sockets_view(stack.sockets)[handle] is Udp,
{
}

/// A new stack has no sockets. Its interface has the configured address, sends
/// what is not for its subnets to the gateway, and takes what is for any address.
pub proof fn a_new_stack_is_set_up<R>(
    iface: Interface,
    config: StackConfig,
    result: Result<Stack<R>, Error>,
)
    requires
        call_ensures(Stack::<R>::new, (iface, config), result),
    ensures
        ({
            let was = net::iface_view(iface);
            &&& was.addrs.len() >= was.addr_limit ==> (result matches Err(error) && error.kind
                == ErrorKind::Other && error.message@ == "failed to add IP address"@)
            &&& was.addrs.len() < was.addr_limit && was.routes.len() < was.route_limit ==> result is Ok
            &&& was.addrs.len() < was.addr_limit && result is Err ==> result->Err_0.kind
                == ErrorKind::Other && result->Err_0.message@ == "failed to add default route"@
            &&& result matches Ok(stack) ==> {
                let now = net::iface_view(stack.iface);
                let route = now.routes.last();
                &&& stack.wf()
                &&& stack.config == config
                &&& now.addrs.drop_last() == was.addrs
                &&& now.addrs.last() == (config.ip, config.prefix_len)
                &&& now.any_ip
                &&& now.routes.len() > 0
                &&& route.gateway == config.gateway
                &&& route.subnet.1 == 0
                &&& match (config.gateway, route.subnet.0) {
                    (IpAddr::V4(_), IpAddr::V4(any)) => any.bits == 0,
                    (IpAddr::V6(_), IpAddr::V6(any)) => any.bits == 0,
                    _ => false,
                }
                &&& was.routes.len() == 0 ==> now.routes.len() == 1
                &&& now.ip_mtu == was.ip_mtu
                &&& forall|h: SocketHandle|
                    {
                        &&& !(#[trigger] net::sockets_view(stack.sockets).contains_key(h))
                        &&& !stack.pending@.contains_key(h)
                        &&& !stack.listeners@.contains_key(h)
                        &&& !stack.tcp_states@.contains_key(h)
                        &&& !stack.udp_states@.contains_key(h)
                    }
            }
        }),
{
    let was = net::iface_view(iface);
    net::lemma_without_route_len(was.routes, net::everything(config.gateway));
    match result {
        Ok(stack) => {
            let now = net::iface_view(stack.iface);
            assert(now.addrs.drop_last() =~= was.addrs);
            assert forall|h: SocketHandle|
                {
                    &&& !(#[trigger] net::sockets_view(stack.sockets).contains_key(h))
                    &&& !stack.pending@.contains_key(h)
                    &&& !stack.listeners@.contains_key(h)
                    &&& !stack.tcp_states@.contains_key(h)
                    &&& !stack.udp_states@.contains_key(h)
                } by {
                assert(!stack.socks().dom().contains(h));
                assert(!stack.pending@.dom().contains(h));
                assert(!stack.listeners@.dom().contains(h));
                assert(!stack.tcp_states@.dom().contains(h));
                assert(!stack.udp_states@.dom().contains(h));
            }
        },
        Err(_) => {},
    }
}

/// A stack can be started with an address that is not of a group of hosts, with a
/// prefix that its family can have, and with a single host as the gateway.
pub proof fn configurations_are_checked(config: &StackConfig, yes: bool)
    requires
        call_ensures(handlers::is_config_ok, (config,), yes),
    ensures
        ({
            let ip_ok = match config.ip {
                IpAddr::V4(v4) => v4.bits / 0x1000_0000 != 14 && v4.bits != 0xffff_ffff
                    && config.prefix_len <= 32,
                IpAddr::V6(v6) => v6.bits / 0x100_0000_0000_0000_0000_0000_0000_0000 != 0xff
                    && config.prefix_len <= 128,
            };
            let gateway_ok = match config.gateway {
                IpAddr::V4(v4) => v4.bits / 0x1000_0000 != 14 && v4.bits != 0xffff_ffff && v4.bits
                    != 0,
                IpAddr::V6(v6) => v6.bits / 0x100_0000_0000_0000_0000_0000_0000_0000 != 0xff
                    && v6.bits != 0,
            };
            yes == (ip_ok && gateway_ok)
        }),
{
}

/// Ports are handed out from 49152 on, each one higher than the last; after 65535
/// it begins again.
pub proof fn ports_go_up_one_by_one(
    fresh: EphemeralPorts,
    ports: &mut EphemeralPorts,
    port: u16,
)
    requires
        call_ensures(EphemeralPorts::new, (), fresh),
        call_ensures(EphemeralPorts::allocate, (ports,), port),
    ensures
        fresh.next() == 49152,
        port == old(ports).next(),
        49152 <= port,
        port < 65535 ==> final(ports).next() == port + 1,
        port == 65535 ==> final(ports).next() == 49152,
{
}

/// A listener that does not say how large its backlog is has eight sockets.
pub proof fn backlogs_hold_eight_by_default<R>(
    stack: &mut Stack<R>,
    addr: SocketAddr,
    listening: Listening,
)
    requires
        call_ensures(
            Stack::<R>::handle_tcp_listen,
            (stack, addr, DEFAULT_TCP_BACKLOG),
            Ok(listening),
        ),
    ensures
        final(stack).listeners@[listening.handle].listening_handles@.len() == 8,
{
}

} // verus!
