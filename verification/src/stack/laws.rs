//! What holds of the stack across commands.

use vstd::prelude::*;

use smoltcp::iface::SocketHandle;

use super::channels;
use super::handlers::{self, Accepted};
use super::net::{self, Endpoint, SocketView, TcpState};
use super::{
    next_port, Completion, ListenerState, Listening, Stack, EPHEMERAL_PORT_COUNT,
    EPHEMERAL_PORT_START,
};
use crate::addr::{IpAddr, SocketAddr};
use crate::error::Error;

verus! {

/// The port that comes next after `count` allocations.
pub open spec fn port_after_allocations(start: u16, count: nat) -> u16
    decreases count,
{
    if count == 0 {
        start
    } else {
        next_port(port_after_allocations(start, (count - 1) as nat))
    }
}

/// Ports are handed out one after the other, never leave their range, and come
/// round again after all of it has been used.
pub proof fn ports_come_round(start: u16, count: nat)
    requires
        start >= EPHEMERAL_PORT_START,
    ensures
        port_after_allocations(start, count) >= EPHEMERAL_PORT_START,
        port_after_allocations(start, count) == EPHEMERAL_PORT_START + (start
            - EPHEMERAL_PORT_START + count) % EPHEMERAL_PORT_COUNT as int,
    decreases count,
{
    if count > 0 {
        ports_come_round(start, (count - 1) as nat);
    }
}

/// Between two uses of the same ephemeral port all others are used.
pub proof fn ports_do_not_repeat_early(start: u16, a: nat, b: nat)
    requires
        start >= EPHEMERAL_PORT_START,
        a < b < a + EPHEMERAL_PORT_COUNT,
    ensures
        port_after_allocations(start, a) != port_after_allocations(start, b),
{
    ports_come_round(start, a);
    ports_come_round(start, b);
}

/// Accepting a connection keeps the backlog as large as it was, and takes the
/// connection out of it.
pub proof fn backlog_keeps_its_size(
    before: Map<SocketHandle, SocketView>,
    after: Map<SocketHandle, SocketView>,
    listener: ListenerState,
    next: ListenerState,
    i: int,
    accepted: Accepted,
)
    requires
        handlers::took_connection(before, after, listener, next, i, accepted),
        listener.listening_handles@.no_duplicates(),
        before.contains_key(accepted.handle),
    ensures
        next.listening_handles@.len() == listener.listening_handles@.len(),
        !next.listening_handles@.contains(accepted.handle),
{
    let old_list = listener.listening_handles@;
    let list = next.listening_handles@;
    if list.contains(accepted.handle) {
        let j = choose|j: int| 0 <= j < list.len() && list[j] == accepted.handle;
        if j < list.len() - 1 {
            let k = if j < i {
                j
            } else {
                j + 1
            };
            assert(list[j] == old_list.remove(i)[j]);
            assert(list[j] == old_list[k]);
            assert(old_list[k] == old_list[i]);
        }
    }
}

/// A closed listener frees its port: the same address can be listened on again.
pub proof fn closed_listener_frees_its_port<R>(
    before: Stack<R>,
    after: Stack<R>,
    handle: SocketHandle,
)
    requires
        before.wf(),
        before.listeners@.contains_key(handle),
        after.listener_closed(&before, handle),
    ensures
        handlers::listen_refusal(after.listeners@, before.listeners@[handle].addr) is None,
{
    let addr = before.listeners@[handle].addr;
    assert forall|h: SocketHandle| #[trigger] after.listeners@.contains_key(h) implies
        after.listeners@[h].addr.spec_port() != addr.spec_port() by {
        assert(before.listeners@.contains_key(h));
        assert(super::apart(before.listeners@[h], before.listeners@[handle]));
    }
}

/// Listening where a listener was closed succeeds, at the same address, with as
/// many sockets as were asked for.
pub proof fn closed_port_can_be_listened_on_again<R>(
    before: Stack<R>,
    closed: Stack<R>,
    after: Stack<R>,
    handle: SocketHandle,
    backlog: usize,
    result: Result<Listening, Error>,
)
    requires
        before.wf(),
        before.listeners@.contains_key(handle),
        closed.listener_closed(&before, handle),
        after.listen_handled(&closed, before.listeners@[handle].addr, backlog, result),
    ensures
        result is Ok,
        result->Ok_0.addr == before.listeners@[handle].addr,
        after.listeners@.contains_key(result->Ok_0.handle),
        backlog > 0 ==> after.listeners@[result->Ok_0.handle].listening_handles@.len() == backlog,
{
    closed_listener_frees_its_port(before, closed, handle);
}

/// A listener keeps its port from others: nobody else can listen on it.
pub proof fn listener_keeps_its_port<R>(stack: Stack<R>, handle: SocketHandle, addr: SocketAddr)
    requires
        stack.listeners@.contains_key(handle),
        stack.listeners@[handle].addr.spec_port() == addr.spec_port(),
    ensures
        handlers::listen_refusal(stack.listeners@, addr) is Some,
{
}

/// Closing a listener leaves the connections that its sockets have alone.
pub proof fn closed_listener_spares_connections<R>(
    before: Stack<R>,
    after: Stack<R>,
    handle: SocketHandle,
    socket: SocketHandle,
)
    requires
        before.wf(),
        after.listener_closed(&before, handle),
        before.socks().contains_key(socket),
        before.socks()[socket] is Tcp ==> before.socks()[socket]->Tcp_0.state != TcpState::Listen,
    ensures
        after.socks().contains_key(socket),
        after.socks()[socket] == before.socks()[socket],
{
    if before.listeners@.contains_key(handle) {
        let handles = before.listeners@[handle].listening_handles@;
        assert(handles.take(handles.len() as int) =~= handles);
        assert(after.socks().dom().contains(socket));
        if handles.contains(socket) {
            let i = choose|i: int| 0 <= i < handles.len() && handles[i] == socket;
            assert(super::is_tcp(before.socks(), handles[i]));
        }
    }
}

/// An address is there once it was added, unless the list was full.
pub proof fn added_ip_is_there<R>(
    before: Stack<R>,
    after: Stack<R>,
    ip: IpAddr,
    prefix_len: u8,
    result: Result<(), Error>,
)
    requires
        after.add_ip_handled(&before, ip, prefix_len, result),
    ensures
        after.has_ip(ip, prefix_len) <==> result is Ok,
        forall|other: IpAddr, len: u8|
            before.has_ip(other, len) ==> #[trigger] after.has_ip(other, len),
{
    let was = net::iface_view(before.iface).addrs;
    let now = net::iface_view(after.iface).addrs;
    if !before.has_ip(ip, prefix_len) && result is Ok {
        assert(now[was.len() as int] == (ip, prefix_len));
        assert forall|other: IpAddr, len: u8| before.has_ip(other, len) implies
            #[trigger] after.has_ip(other, len) by {
            let i = choose|i: int| 0 <= i < was.len() && was[i] == (other, len);
            assert(now[i] == (other, len));
        }
    }
}

/// Adding an address a second time changes nothing.
pub proof fn ip_is_added_once<R>(
    first: Stack<R>,
    second: Stack<R>,
    third: Stack<R>,
    ip: IpAddr,
    prefix_len: u8,
    a: Result<(), Error>,
    b: Result<(), Error>,
)
    requires
        second.add_ip_handled(&first, ip, prefix_len, a),
        third.add_ip_handled(&second, ip, prefix_len, b),
        a is Ok,
    ensures
        b is Ok,
        net::iface_view(third.iface).addrs == net::iface_view(second.iface).addrs,
{
    added_ip_is_there(first, second, ip, prefix_len, a);
}

proof fn lemma_without_ip(addrs: Seq<(IpAddr, u8)>, ip: IpAddr)
    ensures
        forall|i: int|
            0 <= i < handlers::without_ip(addrs, ip).len() ==> (
            #[trigger] handlers::without_ip(addrs, ip)[i]).0 != ip,
        (forall|i: int| 0 <= i < addrs.len() ==> (#[trigger] addrs[i]).0 != ip)
            ==> handlers::without_ip(addrs, ip) == addrs,
    decreases addrs.len(),
{
    reveal(Seq::filter);
    if addrs.len() > 0 {
        lemma_without_ip(addrs.drop_last(), ip);
        let init = addrs.drop_last();
        if forall|i: int| 0 <= i < addrs.len() ==> (#[trigger] addrs[i]).0 != ip {
            assert forall|i: int| 0 <= i < init.len() implies (#[trigger] init[i]).0 != ip by {
                assert(init[i] == addrs[i]);
            }
            assert(addrs.last() == addrs[addrs.len() - 1]);
            assert(handlers::without_ip(addrs, ip) =~= addrs);
        }
    }
}

/// A removed address is gone, whatever its prefix length.
pub proof fn removed_ip_is_gone<R>(before: Stack<R>, after: Stack<R>, ip: IpAddr)
    requires
        after.remove_ip_handled(&before, ip),
    ensures
        forall|len: u8| !(#[trigger] after.has_ip(ip, len)),
{
    lemma_without_ip(net::iface_view(before.iface).addrs, ip);
}

/// Removing an address that was just added gives back the addresses as they
/// were.
pub proof fn removing_undoes_adding<R>(
    first: Stack<R>,
    second: Stack<R>,
    third: Stack<R>,
    ip: IpAddr,
    prefix_len: u8,
    result: Result<(), Error>,
)
    requires
        forall|len: u8| !(#[trigger] first.has_ip(ip, len)),
        second.add_ip_handled(&first, ip, prefix_len, result),
        third.remove_ip_handled(&second, ip),
    ensures
        net::iface_view(third.iface).addrs == net::iface_view(first.iface).addrs,
{
    let was = net::iface_view(first.iface).addrs;
    let now = net::iface_view(second.iface).addrs;
    assert forall|i: int| 0 <= i < was.len() implies (#[trigger] was[i]).0 != ip by {
        if was[i].0 == ip {
            assert(was[i] == (ip, was[i].1));
            assert(first.has_ip(ip, was[i].1));
        }
    }
    lemma_without_ip(was, ip);
    assert(!first.has_ip(ip, prefix_len));
    reveal(Seq::filter);
    if result is Ok {
        assert(now.drop_last() =~= was);
    }
}

/// Whoever is told of a connection gets the far ends of the channels of that
/// connection's socket.
pub proof fn connection_comes_with_its_channels<R>(
    before: Stack<R>,
    after: Stack<R>,
    handle: SocketHandle,
    completion: Completion<R>,
)
    requires
        before.wf(),
        after.answered(&before, handle, Some(completion)),
        completion.result is Ok,
        before.pending@[handle] is TcpConnect ==> before.tcp_states@.contains_key(handle),
    ensures
        ({
            let connected = completion.result->Ok_0;
            &&& after.tcp_states@.contains_key(connected.handle)
            &&& channels::paired(connected.channels, after.tcp_states@[connected.handle])
            &&& after.tcp_states@[connected.handle].read_tx is Some
        }),
{
    assert(before.pending@.contains_key(handle));
}

/// A connection that was asked for is reported with the addresses that it was
/// asked for with.
pub proof fn connection_is_the_one_asked_for<R>(
    before: Stack<R>,
    started: Stack<R>,
    later: Stack<R>,
    after: Stack<R>,
    handle: SocketHandle,
    local: Endpoint,
    addr: SocketAddr,
    response: R,
    completion: Completion<R>,
)
    requires
        started.connect_started(&before, handle, local, addr, response),
        later.pending@.contains_key(handle),
        later.pending@[handle] == started.pending@[handle],
        after.answered(&later, handle, Some(completion)),
        completion.result is Ok,
    ensures
        completion.response == response,
        completion.result->Ok_0.handle == handle,
        completion.result->Ok_0.peer == addr,
        completion.result->Ok_0.local == SocketAddr::spec_new(local.ip, local.port),
{
}

} // verus!
