//! The rounds of the stack: moving data, and answering what was waiting.

use vstd::prelude::*;

use smoltcp::iface::SocketHandle;

use super::channels::{
    self, SendOutcome, Sending, Taking, TcpSocketState, UdpSocketState,
};
use super::data;
use super::handle_map::{self, HandleMap};
use super::handlers::{self, ConnectOutcome};
use super::net::{self, Endpoint, Packet, SocketView, TcpState, UdpView};
use super::{
    ended_in_time, is_tcp, is_udp, Completion, Connected, EphemeralPorts, PendingOp, Reply, Stack,
    StackCommand,
};
use crate::addr::{IpAddr, SocketAddr};
use crate::error::{invalid_input, Error, ErrorKind};
use crate::stats::{TunnelStats, TunnelStatsSnapshot};

verus! {

/// Data was moved between a TCP socket and its channel.
pub open spec fn tcp_moved(
    write: bool,
    before: SocketView,
    state: TcpSocketState,
    after: SocketView,
    next: TcpSocketState,
) -> bool {
    &&& after is Tcp
    &&& if write {
        data::tcp_written(before->Tcp_0, state, after->Tcp_0, next)
    } else {
        data::tcp_read(before->Tcp_0, state, after->Tcp_0, next)
    }
}

/// Packets were moved between a UDP socket and its channel, and counted.
pub open spec fn udp_moved(
    write: bool,
    before: SocketView,
    state: UdpSocketState,
    after: SocketView,
    next: UdpSocketState,
    counts: TunnelStatsSnapshot,
    next_counts: TunnelStatsSnapshot,
) -> bool {
    &&& after is Udp
    &&& if write {
        data::udp_written(before->Udp_0, state, after->Udp_0, next, counts, next_counts)
    } else {
        data::udp_read(before->Udp_0, state, after->Udp_0, next, counts, next_counts)
    }
}

impl<R> Stack<R> {
    /// Data was moved between every TCP socket and its channel; the other
    /// sockets stayed as they were.
    pub open spec fn tcp_polled(&self, before: &Stack<R>, write: bool) -> bool {
        &&& self.same_setup(before)
        &&& self.pending == before.pending
        &&& self.listeners == before.listeners
        &&& self.udp_states == before.udp_states
        &&& self.tcp_states@.dom() == before.tcp_states@.dom()
        &&& self.socks().dom() == before.socks().dom()
        &&& forall|h: SocketHandle| #[trigger]
            before.tcp_states@.contains_key(h) ==> tcp_moved(
                write,
                before.socks()[h],
                before.tcp_states@[h],
                self.socks()[h],
                self.tcp_states@[h],
            )
        &&& forall|h: SocketHandle| #[trigger]
            before.socks().contains_key(h) && !before.tcp_states@.contains_key(h)
                ==> self.socks()[h] == before.socks()[h]
    }

    /// Packets were moved between every UDP socket and its channel, one socket
    /// after the other; the counters went through `counts`.
    pub open spec fn udp_moved_in_turn(
        &self,
        before: &Stack<R>,
        write: bool,
        counts: Seq<TunnelStatsSnapshot>,
    ) -> bool {
        let entries = before.udp_states.entries@;
        &&& self.udp_states.entries@.len() == entries.len()
        &&& counts.len() == entries.len() + 1
        &&& forall|j: int|
            #![trigger entries[j]]
            #![trigger self.udp_states.entries@[j]]
            0 <= j < entries.len() ==> self.udp_states.entries@[j].0 == entries[j].0 && udp_moved(
                write,
                before.socks()[entries[j].0],
                entries[j].1,
                self.socks()[entries[j].0],
                self.udp_states.entries@[j].1,
                counts[j],
                counts[j + 1],
            )
    }

    /// The same, from one state of the counters to another.
    pub open spec fn udp_counted(
        &self,
        before: &Stack<R>,
        write: bool,
        from: TunnelStatsSnapshot,
        to: TunnelStatsSnapshot,
    ) -> bool {
        exists|counts: Seq<TunnelStatsSnapshot>| #[trigger]
            self.udp_moved_in_turn(before, write, counts) && counts[0] == from && counts.last()
                == to
    }

    /// Packets were moved between every UDP socket and its channel; the other
    /// sockets stayed as they were.
    pub open spec fn udp_polled(
        &self,
        before: &Stack<R>,
        write: bool,
        from: TunnelStatsSnapshot,
        to: TunnelStatsSnapshot,
    ) -> bool {
        &&& self.same_setup(before)
        &&& self.pending == before.pending
        &&& self.listeners == before.listeners
        &&& self.tcp_states == before.tcp_states
        &&& self.udp_states@.dom() == before.udp_states@.dom()
        &&& self.socks().dom() == before.socks().dom()
        &&& self.udp_counted(before, write, from, to)
        &&& forall|h: SocketHandle| #[trigger]
            before.socks().contains_key(h) && !before.udp_states@.contains_key(h)
                ==> self.socks()[h] == before.socks()[h]
    }

    fn poll_tcp(&mut self, write: bool)
        requires
            old(self).wf(),
        ensures
            final(self).wf(),
            final(self).tcp_polled(old(self), write),
    {
        let ghost before = *self;
        let mut i: usize = 0;
        while i < self.tcp_states.entries.len()
            invariant
                before.wf(),
                self.tcp_states.wf(),
                self.same_setup(&before),
                self.iface == before.iface,
                net::owns_storage(self.sockets),
                self.pending == before.pending,
                self.listeners == before.listeners,
                self.udp_states == before.udp_states,
                i <= self.tcp_states.entries@.len() == before.tcp_states.entries@.len(),
                self.socks().dom() == before.socks().dom(),
                forall|j: int|
                    0 <= j < self.tcp_states.entries@.len() ==> (
                    #[trigger] self.tcp_states.entries@[j]).0 == before.tcp_states.entries@[j].0,
                forall|j: int|
                    i <= j < self.tcp_states.entries@.len() ==> #[trigger]
                    self.tcp_states.entries@[j] == before.tcp_states.entries@[j],
                forall|j: int|
                    #![trigger self.tcp_states.entries@[j]]
                    #![trigger before.tcp_states.entries@[j]]
                    0 <= j < i ==> tcp_moved(
                        write,
                        before.socks()[before.tcp_states.entries@[j].0],
                        before.tcp_states.entries@[j].1,
                        self.socks()[before.tcp_states.entries@[j].0],
                        self.tcp_states.entries@[j].1,
                    ),
                forall|h: SocketHandle| #[trigger]
                    before.socks().contains_key(h) && (forall|j: int|
                        0 <= j < i ==> (#[trigger] before.tcp_states.entries@[j]).0 != h)
                        ==> self.socks()[h] == before.socks()[h],
            decreases self.tcp_states.entries@.len() - i,
        {
            let handle = self.tcp_states.entries[i].0;
            let ghost sofar = *self;
            proof {
                before.tcp_states.lemma_entries();
                assert(before.tcp_states.entries@[i as int].0 == handle);
                assert(before.tcp_states@.contains_key(handle));
                assert(is_tcp(before.socks(), handle));
                assert forall|j: int| 0 <= j < i implies (
                #[trigger] before.tcp_states.entries@[j]).0 != handle by {}
                assert(before.socks().contains_key(handle));
                assert(self.socks().dom().contains(handle));
            }
            let socket = net::sockets_get_tcp(&mut self.sockets, handle);
            let state = self.tcp_states.value_mut(i);
            if write {
                data::process_tcp_write(socket, state);
            } else {
                data::process_tcp_read(socket, state);
            }
            proof {
                HandleMap::lemma_value_changed(
                    sofar.tcp_states,
                    self.tcp_states,
                    i as int,
                    self.tcp_states.entries@[i as int].1,
                );
                assert(self.socks().dom() =~= sofar.socks().dom());
                assert forall|h: SocketHandle| #[trigger]
                    before.socks().contains_key(h) && (forall|j: int|
                        0 <= j < i + 1 ==> (#[trigger] before.tcp_states.entries@[j]).0
                            != h) implies self.socks()[h] == before.socks()[h] by {
                    assert(before.tcp_states.entries@[i as int].0 != h);
                    assert(forall|j: int|
                        0 <= j < i ==> (#[trigger] before.tcp_states.entries@[j]).0 != h);
                }
            }
            i = i + 1;
        }
        proof {
            before.tcp_states.lemma_entries();
            self.tcp_states.lemma_entries();
            assert forall|h: SocketHandle| self.tcp_states@.dom().contains(h)
                == before.tcp_states@.dom().contains(h) by {
                if self.tcp_states@.contains_key(h) {
                    let j = choose|j: int|
                        #[trigger] handle_map::entry_at(self.tcp_states.entries@, h, j);
                    assert(self.tcp_states.entries@[j].0 == h);
                    assert(before.tcp_states.entries@[j].0 == h);
                }
                if before.tcp_states@.contains_key(h) {
                    let j = choose|j: int|
                        #[trigger] handle_map::entry_at(before.tcp_states.entries@, h, j);
                    assert(before.tcp_states.entries@[j].0 == h);
                    assert(self.tcp_states.entries@[j].0 == h);
                }
            }
            assert(self.tcp_states@.dom() =~= before.tcp_states@.dom());
            assert forall|h: SocketHandle| #[trigger]
                before.tcp_states@.contains_key(h) implies tcp_moved(
                write,
                before.socks()[h],
                before.tcp_states@[h],
                self.socks()[h],
                self.tcp_states@[h],
            ) by {
                let j = choose|j: int|
                    #[trigger] handle_map::entry_at(before.tcp_states.entries@, h, j);
                assert(before.tcp_states.entries@[j].0 == h);
                assert(self.tcp_states.entries@[j].0 == h);
            }
            assert forall|h: SocketHandle| #[trigger]
                before.socks().contains_key(h) && !before.tcp_states@.contains_key(h) implies
                self.socks()[h] == before.socks()[h] by {
                assert forall|j: int| 0 <= j < i implies (
                #[trigger] before.tcp_states.entries@[j]).0 != h by {}
            }
            assert forall|h: SocketHandle| #[trigger] before.socks().contains_key(h) implies
                self.socks().contains_key(h) && (self.socks()[h] is Tcp
                <==> before.socks()[h] is Tcp) && (before.socks()[h] is Tcp ==> net::ends_kept(
                before.socks()[h]->Tcp_0,
                self.socks()[h]->Tcp_0,
            )) by {
                assert(self.socks().dom().contains(h));
                if before.tcp_states@.contains_key(h) {
                    assert(is_tcp(before.socks(), h));
                    data::moving_data_keeps_the_ends(
                        before.socks()[h]->Tcp_0,
                        before.tcp_states@[h],
                        self.socks()[h]->Tcp_0,
                        self.tcp_states@[h],
                    );
                }
            }
            assert forall|h: SocketHandle| #[trigger] self.tcp_states@.contains_key(h) implies {
                &&& before.tcp_states@.contains_key(h)
                &&& channels::same_ends(before.tcp_states@[h], self.tcp_states@[h])
                &&& ended_in_time(self.socks()[h], self.tcp_states@[h])
            } by {
                assert(before.tcp_states@.dom().contains(h));
                assert(before.tcp_states@.contains_key(h));
                data::end_is_final(
                    before.socks()[h]->Tcp_0,
                    before.tcp_states@[h],
                    self.socks()[h]->Tcp_0,
                    self.tcp_states@[h],
                );
            }
            assert forall|h: SocketHandle| #[trigger]
                self.socks().contains_key(h)
                    && self.socks()[h] is Tcp implies self.socks()[h]->Tcp_0.pollable() by {
                assert(before.socks().dom().contains(h));
                assert(before.socks().contains_key(h));
                if before.tcp_states@.contains_key(h) {
                    assert(is_tcp(before.socks(), h));
                    data::moving_data_keeps_sockets_pollable(
                        before.socks()[h]->Tcp_0,
                        before.tcp_states@[h],
                        self.socks()[h]->Tcp_0,
                        self.tcp_states@[h],
                    );
                }
            }
            self.lemma_kinds_kept(before);
        }
    }

    fn poll_udp(&mut self, write: bool, stats: &mut TunnelStats)
        requires
            old(self).wf(),
        ensures
            final(self).wf(),
            final(self).udp_polled(old(self), write, old(stats).counts(), final(stats).counts()),
    {
        let ghost before = *self;
        let ghost from = stats.counts();
        let ghost mut counts: Seq<TunnelStatsSnapshot> = seq![from];
        let mut i: usize = 0;
        while i < self.udp_states.entries.len()
            invariant
                before.wf(),
                self.udp_states.wf(),
                self.same_setup(&before),
                self.iface == before.iface,
                net::owns_storage(self.sockets),
                self.pending == before.pending,
                self.listeners == before.listeners,
                self.tcp_states == before.tcp_states,
                i <= self.udp_states.entries@.len() == before.udp_states.entries@.len(),
                self.socks().dom() == before.socks().dom(),
                forall|j: int|
                    0 <= j < self.udp_states.entries@.len() ==> (
                    #[trigger] self.udp_states.entries@[j]).0 == before.udp_states.entries@[j].0,
                forall|j: int|
                    i <= j < self.udp_states.entries@.len() ==> #[trigger]
                    self.udp_states.entries@[j] == before.udp_states.entries@[j],
                forall|j: int|
                    #![trigger self.udp_states.entries@[j]]
                    #![trigger before.udp_states.entries@[j]]
                    0 <= j < i ==> udp_moved(
                        write,
                        before.socks()[before.udp_states.entries@[j].0],
                        before.udp_states.entries@[j].1,
                        self.socks()[before.udp_states.entries@[j].0],
                        self.udp_states.entries@[j].1,
                        counts[j],
                        counts[j + 1],
                    ),
                counts.len() == i + 1,
                counts[0] == from,
                counts.last() == stats.counts(),
                forall|h: SocketHandle| #[trigger]
                    before.socks().contains_key(h) && (forall|j: int|
                        0 <= j < i ==> (#[trigger] before.udp_states.entries@[j]).0 != h)
                        ==> self.socks()[h] == before.socks()[h],
            decreases self.udp_states.entries@.len() - i,
        {
            let handle = self.udp_states.entries[i].0;
            let ghost sofar = *self;
            proof {
                before.udp_states.lemma_entries();
                assert(before.udp_states.entries@[i as int].0 == handle);
                assert(before.udp_states@.contains_key(handle));
                assert(is_udp(before.socks(), handle));
                assert forall|j: int| 0 <= j < i implies (
                #[trigger] before.udp_states.entries@[j]).0 != handle by {}
                assert(before.socks().contains_key(handle));
                assert(self.socks().dom().contains(handle));
            }
            let socket = net::sockets_get_udp(&mut self.sockets, handle);
            let state = self.udp_states.value_mut(i);
            if write {
                data::process_udp_write(socket, state, stats);
            } else {
                data::process_udp_read(socket, state, stats);
            }
            proof {
                HandleMap::lemma_value_changed(
                    sofar.udp_states,
                    self.udp_states,
                    i as int,
                    self.udp_states.entries@[i as int].1,
                );
                assert(self.socks().dom() =~= sofar.socks().dom());
                let more = counts.push(stats.counts());
                assert forall|j: int|
                    #![trigger self.udp_states.entries@[j]]
                    #![trigger before.udp_states.entries@[j]]
                    0 <= j < i + 1 implies udp_moved(
                    write,
                    before.socks()[before.udp_states.entries@[j].0],
                    before.udp_states.entries@[j].1,
                    self.socks()[before.udp_states.entries@[j].0],
                    self.udp_states.entries@[j].1,
                    more[j],
                    more[j + 1],
                ) by {
                    if j < i {
                        assert(sofar.udp_states.entries@[j] == self.udp_states.entries@[j]);
                        assert(more[j] == counts[j] && more[j + 1] == counts[j + 1]);
                    }
                }
                counts = more;
                assert forall|h: SocketHandle| #[trigger]
                    before.socks().contains_key(h) && (forall|j: int|
                        0 <= j < i + 1 ==> (#[trigger] before.udp_states.entries@[j]).0
                            != h) implies self.socks()[h] == before.socks()[h] by {
                    assert(before.udp_states.entries@[i as int].0 != h);
                    assert(forall|j: int|
                        0 <= j < i ==> (#[trigger] before.udp_states.entries@[j]).0 != h);
                }
            }
            i = i + 1;
        }
        proof {
            before.udp_states.lemma_entries();
            self.udp_states.lemma_entries();
            assert forall|h: SocketHandle| self.udp_states@.dom().contains(h)
                == before.udp_states@.dom().contains(h) by {
                if self.udp_states@.contains_key(h) {
                    let j = choose|j: int|
                        #[trigger] handle_map::entry_at(self.udp_states.entries@, h, j);
                    assert(self.udp_states.entries@[j].0 == h);
                    assert(before.udp_states.entries@[j].0 == h);
                }
                if before.udp_states@.contains_key(h) {
                    let j = choose|j: int|
                        #[trigger] handle_map::entry_at(before.udp_states.entries@, h, j);
                    assert(before.udp_states.entries@[j].0 == h);
                    assert(self.udp_states.entries@[j].0 == h);
                }
            }
            assert(self.udp_states@.dom() =~= before.udp_states@.dom());
            assert(self.udp_moved_in_turn(&before, write, counts));
            assert forall|h: SocketHandle| #[trigger]
                before.socks().contains_key(h) && !before.udp_states@.contains_key(h) implies
                self.socks()[h] == before.socks()[h] by {
                assert forall|j: int| 0 <= j < i implies (
                #[trigger] before.udp_states.entries@[j]).0 != h by {}
            }
            assert forall|h: SocketHandle| #[trigger] before.socks().contains_key(h) implies
                self.socks().contains_key(h) && (self.socks()[h] is Tcp
                <==> before.socks()[h] is Tcp) by {
                assert(self.socks().dom().contains(h));
                if before.udp_states@.contains_key(h) {
                    assert(is_udp(before.socks(), h));
                    let j = choose|j: int|
                        #[trigger] handle_map::entry_at(before.udp_states.entries@, h, j);
                    assert(before.udp_states.entries@[j].0 == h);
                }
            }
            assert forall|h: SocketHandle| #[trigger]
                self.socks().contains_key(h)
                    && self.socks()[h] is Tcp implies self.socks()[h]->Tcp_0.pollable() by {
                assert(before.socks().dom().contains(h));
                assert(before.socks().contains_key(h));
                if before.udp_states@.contains_key(h) {
                    assert(is_udp(before.socks(), h));
                }
            }
            assert forall|h: SocketHandle| #[trigger] self.udp_states@.contains_key(h) implies
                before.udp_states@.contains_key(h) && self.udp_states@[h].read_tx is Some by {
                assert(before.udp_states@.dom().contains(h));
                let j = choose|j: int|
                    #[trigger] handle_map::entry_at(self.udp_states.entries@, h, j);
                assert(self.udp_states.entries@[j].0 == h);
                assert(before.udp_states.entries@[j].0 == h);
                assert(before.udp_states@.contains_key(h));
            }
            self.lemma_kinds_kept(before);
        }
    }

    /// Data was moved between every socket and its channel; a socket without
    /// channels stayed as it was.
    pub open spec fn polled(
        &self,
        before: &Stack<R>,
        write: bool,
        from: TunnelStatsSnapshot,
        to: TunnelStatsSnapshot,
    ) -> bool {
        &&& self.same_setup(before)
        &&& self.pending == before.pending
        &&& self.listeners == before.listeners
        &&& self.tcp_states@.dom() == before.tcp_states@.dom()
        &&& self.udp_states@.dom() == before.udp_states@.dom()
        &&& self.socks().dom() == before.socks().dom()
        &&& forall|h: SocketHandle| #[trigger]
            before.tcp_states@.contains_key(h) ==> tcp_moved(
                write,
                before.socks()[h],
                before.tcp_states@[h],
                self.socks()[h],
                self.tcp_states@[h],
            )
        &&& self.udp_counted(before, write, from, to)
        &&& forall|h: SocketHandle| #[trigger]
            before.socks().contains_key(h) && !before.tcp_states@.contains_key(h)
                && !before.udp_states@.contains_key(h) ==> self.socks()[h] == before.socks()[h]
    }

    fn poll_channels(&mut self, write: bool, stats: &mut TunnelStats)
        requires
            old(self).wf(),
        ensures
            final(self).wf(),
            final(self).polled(old(self), write, old(stats).counts(), final(stats).counts()),
    {
        let ghost before = *self;
        self.poll_tcp(write);
        let ghost middle = *self;
        self.poll_udp(write, stats);
        proof {
            assert forall|h: SocketHandle| #[trigger]
                before.tcp_states@.contains_key(h) implies tcp_moved(
                write,
                before.socks()[h],
                before.tcp_states@[h],
                self.socks()[h],
                self.tcp_states@[h],
            ) by {
                assert(is_tcp(before.socks(), h));
                assert(middle.socks().dom().contains(h));
                assert(middle.socks().contains_key(h) && !middle.udp_states@.contains_key(h));
            }
            let counts = choose|counts: Seq<TunnelStatsSnapshot>| #[trigger]
                self.udp_moved_in_turn(&middle, write, counts) && counts[0] == old(stats).counts()
                    && counts.last() == stats.counts();
            before.udp_states.lemma_entries();
            assert forall|j: int| 0 <= j < before.udp_states.entries@.len() implies before.socks()[(
            #[trigger] before.udp_states.entries@[j]).0]
                == middle.socks()[before.udp_states.entries@[j].0] by {
                let h = before.udp_states.entries@[j].0;
                assert(before.udp_states@.contains_key(h));
                assert(is_udp(before.socks(), h));
                assert(before.socks().contains_key(h) && !before.tcp_states@.contains_key(h));
            }
            assert(self.udp_moved_in_turn(&before, write, counts));
            assert forall|h: SocketHandle| #[trigger]
                before.socks().contains_key(h) && !before.tcp_states@.contains_key(h)
                    && !before.udp_states@.contains_key(h) implies self.socks()[h]
                == before.socks()[h] by {
                assert(middle.socks().dom().contains(h));
                assert(middle.socks().contains_key(h));
            }
        }
    }

    /// Give the sockets what was written to their channels.
    pub fn poll_write_channels(&mut self, stats: &mut TunnelStats)
        requires
            old(self).wf(),
        ensures
            final(self).wf(),
            final(self).polled(old(self), true, old(stats).counts(), final(stats).counts()),
    {
        self.poll_channels(true, stats)
    }

    /// Hand what the sockets received to their channels.
    pub fn poll_read_channels(&mut self, stats: &mut TunnelStats)
        requires
            old(self).wf(),
        ensures
            final(self).wf(),
            final(self).polled(old(self), false, old(stats).counts(), final(stats).counts()),
    {
        self.poll_channels(false, stats)
    }

    /// Whoever waits for `handle` has been dealt with: told how it went, or
    /// left waiting where it goes on.
    pub open spec fn answered(
        &self,
        before: &Stack<R>,
        handle: SocketHandle,
        completion: Option<Completion<R>>,
    ) -> bool {
        if !before.pending@.contains_key(handle) {
            completion is None && self.same(before)
        } else {
            match before.pending@[handle] {
                PendingOp::TcpConnect { local_addr, peer_addr, channels, response } => {
                    let state = before.socks()[handle]->Tcp_0.state;
                    if state == TcpState::Established {
                        &&& self.same_but_pending(before, handle)
                        &&& self.tcp_states@ == before.tcp_states@
                        &&& completion is Some
                        &&& told(completion->0, handle, response)
                        &&& completion->0.result == Ok::<Connected, Error>(
                            Connected { handle, local: local_addr, peer: peer_addr, channels },
                        )
                    } else if state == TcpState::Closed || state == TcpState::TimeWait {
                        &&& self.same_but_pending(before, handle)
                        &&& self.tcp_states@ == before.tcp_states@.remove(handle)
                        &&& completion is Some
                        &&& told(completion->0, handle, response)
                        &&& completion->0.result is Err
                        &&& completion->0.result->Err_0.reads(
                            ErrorKind::ConnectionRefused,
                            "connection failed"@,
                        )
                    } else {
                        completion is None && self.same(before)
                    }
                },
                PendingOp::TcpAccept { response } => {
                    if !before.listeners@.contains_key(handle) {
                        &&& self.same_but_pending(before, handle)
                        &&& self.tcp_states@ == before.tcp_states@
                        &&& completion is Some
                        &&& told(completion->0, handle, response)
                        &&& completion->0.result is Err
                        &&& completion->0.result->Err_0.reads(
                            ErrorKind::InvalidInput,
                            "listener closed"@,
                        )
                    } else if handlers::none_ready(
                        before.socks(),
                        before.listeners@[handle].listening_handles@,
                    ) {
                        completion is None && self.same(before)
                    } else {
                        &&& self.pending@ == before.pending@.remove(handle)
                        &&& completion is Some
                        &&& told(completion->0, handle, response)
                        &&& completion->0.result is Ok
                        &&& exists|i: int|
                            #[trigger] self.connection_accepted(
                                before,
                                handle,
                                i,
                                completion->0.result->Ok_0,
                            )
                    }
                },
            }
        }
    }

    /// Nobody waits for `handle` any more; the sockets, listeners and UDP
    /// channels stayed as they were.
    pub open spec fn same_but_pending(&self, before: &Stack<R>, handle: SocketHandle) -> bool {
        &&& self.same_setup(before)
        &&& self.socks() == before.socks()
        &&& self.pending@ == before.pending@.remove(handle)
        &&& self.listeners@ == before.listeners@
        &&& self.udp_states@ == before.udp_states@
    }

    /// Whoever waits for `handle` has to go on waiting.
    pub open spec fn undecided(&self, handle: SocketHandle) -> bool {
        match self.pending@[handle] {
            PendingOp::TcpConnect { .. } => {
                let state = self.socks()[handle]->Tcp_0.state;
                state != TcpState::Established && state != TcpState::Closed && state
                    != TcpState::TimeWait
            },
            PendingOp::TcpAccept { .. } => {
                &&& self.listeners@.contains_key(handle)
                &&& handlers::none_ready(
                    self.socks(),
                    self.listeners@[handle].listening_handles@,
                )
            },
        }
    }

    /// Tell whoever waits for `handle` how it went, if that is known.
    pub fn answer(&mut self, handle: SocketHandle) -> (completion: Option<Completion<R>>)
        requires
            old(self).wf(),
        ensures
            final(self).wf(),
            final(self).answered(old(self), handle, completion),
    {
        let ghost before = *self;
        let connecting: bool = match self.pending.get(handle) {
            Some(PendingOp::TcpConnect { .. }) => true,
            Some(PendingOp::TcpAccept { .. }) => false,
            None => {
                return None;
            },
        };
        assert(is_tcp(self.socks(), handle));
        if connecting {
            let socket = net::sockets_get_tcp(&mut self.sockets, handle);
            let state = net::tcp_state(socket);
            assert(self.socks() =~= before.socks());
            let established: bool = state == TcpState::Established;
            let failed: bool = state == TcpState::Closed || state == TcpState::TimeWait;
            if !established && !failed {
                return None;
            }
            match self.pending.remove(handle) {
                Some(PendingOp::TcpConnect { local_addr, peer_addr, channels, response }) => {
                    if established {
                        let connected = Connected {
                            handle,
                            local: local_addr,
                            peer: peer_addr,
                            channels,
                        };
                        proof {
                            self.lemma_kinds_kept(before);
                        }
                        Some(Completion { handle: Some(handle), response, result: Ok(connected) })
                    } else {
                        let _ = self.tcp_states.remove(handle);
                        proof {
                            self.lemma_kinds_kept(before);
                        }
                        let error = Error::new(ErrorKind::ConnectionRefused, "connection failed");
                        Some(Completion { handle: Some(handle), response, result: Err(error) })
                    }
                },
                _ => None,
            }
        } else if !self.listeners.contains(handle) {
            match self.pending.remove(handle) {
                Some(PendingOp::TcpAccept { response }) => {
                    proof {
                        self.lemma_kinds_kept(before);
                    }
                    let error = invalid_input("listener closed");
                    Some(Completion { handle: Some(handle), response, result: Err(error) })
                },
                _ => None,
            }
        } else {
            match self.accept_from(handle) {
                None => None,
                Some(connected) => {
                    let ghost middle = *self;
                    let ghost i = choose|i: int|
                        #[trigger] middle.connection_accepted(&before, handle, i, connected);
                    match self.pending.remove(handle) {
                        Some(PendingOp::TcpAccept { response }) => {
                            proof {
                                self.lemma_kinds_kept(middle);
                                let list = before.listeners@[handle].listening_handles@;
                                assert(handlers::ready(before.socks(), list[i]));
                            }
                            let completion = Completion {
                                handle: Some(handle),
                                response,
                                result: Ok(connected),
                            };
                            assert(self.connection_accepted(
                                old(self),
                                handle,
                                i,
                                completion.result->Ok_0,
                            ));
                            Some(completion)
                        },
                        _ => None,
                    }
                },
            }
        }
    }
}

/// The completion is for whoever waited for `handle` behind `response`.
pub open spec fn told<R>(completion: Completion<R>, handle: SocketHandle, response: R) -> bool {
    completion.handle == Some(handle) && completion.response == response
}

/// The answers that were given, in order.
pub open spec fn given<R>(answers: Seq<Option<Completion<R>>>) -> Seq<Completion<R>>
    decreases answers.len(),
{
    if answers.len() == 0 {
        Seq::empty()
    } else {
        match answers.last() {
            Some(completion) => given(answers.drop_last()).push(completion),
            None => given(answers.drop_last()),
        }
    }
}

/// Whoever waited for one of `keys` was dealt with, one after the other.
pub open spec fn dealt_with<R>(
    before: Stack<R>,
    after: Stack<R>,
    keys: Seq<SocketHandle>,
    steps: Seq<Stack<R>>,
    answers: Seq<Option<Completion<R>>>,
) -> bool {
    &&& steps.len() == keys.len() + 1
    &&& answers.len() == keys.len()
    &&& steps[0] == before
    &&& steps.last() == after
    &&& forall|i: int|
        0 <= i < keys.len() ==> (#[trigger] steps[i + 1]).answered(&steps[i], keys[i], answers[i])
}

/// The token behind which someone waits.
pub open spec fn waiting<R>(op: PendingOp<R>) -> R {
    match op {
        PendingOp::TcpConnect { response, .. } => response,
        PendingOp::TcpAccept { response } => response,
    }
}

/// The completions answer, once each, just those who do not wait any more.
pub open spec fn all_told<R>(
    before: Map<SocketHandle, PendingOp<R>>,
    after: Map<SocketHandle, PendingOp<R>>,
    completions: Seq<Completion<R>>,
) -> bool {
    &&& forall|i: int|
        0 <= i < completions.len() ==> {
            let handle = (#[trigger] completions[i]).handle;
            &&& handle is Some
            &&& before.contains_key(handle->0)
            &&& !after.contains_key(handle->0)
            &&& completions[i].response == waiting(before[handle->0])
        }
    &&& forall|i: int, j: int|
        0 <= i < completions.len() && 0 <= j < completions.len() && i != j ==> (
        #[trigger] completions[i]).handle != (#[trigger] completions[j]).handle
    &&& forall|h: SocketHandle| #[trigger]
        before.contains_key(h) && !after.contains_key(h) ==> exists|i: int|
            0 <= i < completions.len() && (#[trigger] completions[i]).handle == Some(h)
    &&& forall|h: SocketHandle| #[trigger]
        after.contains_key(h) ==> before.contains_key(h) && after[h] == before[h]
}

impl<R> Stack<R> {
    /// Dealing with one handle leaves the others as they are.
    proof fn lemma_answered(
        self,
        before: Stack<R>,
        handle: SocketHandle,
        completion: Option<Completion<R>>,
    )
        requires
            before.wf(),
            self.answered(&before, handle, completion),
        ensures
            completion is Some <==> before.pending@.contains_key(handle)
                && !self.pending@.contains_key(handle),
            completion is Some ==> told(completion->0, handle, waiting(before.pending@[handle])),
            completion is Some ==> self.pending@ == before.pending@.remove(handle),
            completion is None ==> self.pending@ == before.pending@,
            self.pending@.contains_key(handle) ==> self.undecided(handle),
            forall|h: SocketHandle| #[trigger]
                self.pending@.contains_key(h) && before.undecided(h) ==> self.undecided(h),
    {
        assert forall|h: SocketHandle| #[trigger]
            self.pending@.contains_key(h) && before.undecided(h) implies self.undecided(h) by {
            assert(before.pending@.contains_key(h));
            assert(is_tcp(before.socks(), h));
            if completion is Some && completion->0.result is Ok
                && before.pending@[handle] is TcpAccept {
                let connected = completion->0.result->Ok_0;
                let i = choose|i: int|
                    #[trigger] self.connection_accepted(&before, handle, i, connected);
                if before.pending@[h] is TcpAccept {
                    let list = before.listeners@[h].listening_handles@;
                    assert(before.listeners@.contains_key(h));
                    assert(self.listeners@[h] == before.listeners@[h]);
                    assert forall|j: int| 0 <= j < list.len() implies !handlers::ready(
                        self.socks(),
                        #[trigger] list[j],
                    ) by {
                        assert(is_tcp(before.socks(), list[j]));
                        assert(!handlers::ready(before.socks(), list[j]));
                    }
                }
            }
        }
    }

    /// Everybody who waited was told how it went, where that was known; who
    /// waits now has to.
    pub open spec fn pending_processed(
        &self,
        before: &Stack<R>,
        completions: Seq<Completion<R>>,
    ) -> bool {
        &&& exists|
            keys: Seq<SocketHandle>,
            steps: Seq<Stack<R>>,
            answers: Seq<Option<Completion<R>>>,
        |
            #![trigger dealt_with(*before, *self, keys, steps, answers)]
            {
                &&& keys.no_duplicates()
                &&& keys.to_set() == before.pending@.dom()
                &&& dealt_with(*before, *self, keys, steps, answers)
                &&& completions == given(answers)
            }
        &&& all_told(before.pending@, self.pending@, completions)
        &&& forall|h: SocketHandle| #[trigger]
            self.pending@.contains_key(h) ==> self.undecided(h)
    }

    /// Tell everybody who waits how it went, where that is known.
    pub fn process_pending(&mut self) -> (completions: Vec<Completion<R>>)
        requires
            old(self).wf(),
        ensures
            final(self).wf(),
            final(self).pending_processed(old(self), completions@),
    {
        let handles = self.pending.keys();
        let mut completions: Vec<Completion<R>> = Vec::new();
        let ghost before = *self;
        let ghost keys = handles@;
        let ghost mut steps: Seq<Stack<R>> = seq![before];
        let ghost mut answers: Seq<Option<Completion<R>>> = Seq::empty();
        proof {
            assert(keys.take(0) =~= Seq::<SocketHandle>::empty());
        }
        let mut i: usize = 0;
        while i < handles.len()
            invariant
                before.wf(),
                self.wf(),
                keys == handles@,
                keys.no_duplicates(),
                i <= keys.len(),
                dealt_with(before, *self, keys.take(i as int), steps, answers),
                completions@ == given(answers),
                forall|j: int|
                    0 <= j < keys.len() ==> before.pending@.contains_key(#[trigger] keys[j]),
                forall|j: int|
                    i <= j < keys.len() ==> self.pending@.contains_key(#[trigger] keys[j]),
                forall|j: int|
                    0 <= j < i && self.pending@.contains_key(#[trigger] keys[j])
                        ==> self.undecided(keys[j]),
                forall|h: SocketHandle| #[trigger]
                    self.pending@.contains_key(h) ==> before.pending@.contains_key(h)
                        && self.pending@[h] == before.pending@[h],
                all_told(before.pending@, self.pending@, completions@),
                forall|c: int|
                    0 <= c < completions@.len() ==> keys.take(i as int).contains(
                        (#[trigger] completions@[c]).handle->0,
                    ),
            decreases keys.len() - i,
        {
            let ghost sofar = *self;
            let ghost told_before = completions@;
            let handle = handles[i];
            assert(keys[i as int] == handle);
            let completion = self.answer(handle);
            let ghost answer = completion;
            proof {
                self.lemma_answered(sofar, handle, answer);
                let done = keys.take(i as int);
                let more = keys.take(i + 1);
                assert(more =~= done.push(handle));
                let more_steps = steps.push(*self);
                let more_answers = answers.push(answer);
                assert forall|j: int| 0 <= j < more.len() implies (
                #[trigger] more_steps[j + 1]).answered(
                    &more_steps[j],
                    more[j],
                    more_answers[j],
                ) by {
                    if j < done.len() {
                        assert(steps[j + 1].answered(&steps[j], done[j], answers[j]));
                        assert(more_steps[j + 1] == steps[j + 1]);
                    } else {
                        assert(more_steps[j] == sofar);
                    }
                }
                assert(more_answers.drop_last() =~= answers);
                steps = more_steps;
                answers = more_answers;
            }
            match completion {
                Some(completion) => {
                    completions.push(completion);
                },
                None => {},
            }
            proof {
                let done = keys.take(i as int);
                let more = keys.take(i + 1);
                assert(!done.contains(handle)) by {
                    if done.contains(handle) {
                        let j = choose|j: int| 0 <= j < done.len() && done[j] == handle;
                        assert(keys[j] == keys[i as int]);
                    }
                }
                assert forall|c: int| 0 <= c < completions@.len() implies more.contains(
                    (#[trigger] completions@[c]).handle->0,
                ) by {
                    if c < told_before.len() {
                        let h = told_before[c].handle->0;
                        assert(done.contains(h));
                        let j = choose|j: int| 0 <= j < done.len() && done[j] == h;
                        assert(more[j] == h);
                    } else {
                        assert(more[i as int] == handle);
                    }
                }
                assert forall|a: int, b: int|
                    0 <= a < completions@.len() && 0 <= b < completions@.len() && a != b implies (
                #[trigger] completions@[a]).handle != (#[trigger] completions@[b]).handle by {
                    if a < told_before.len() {
                        assert(done.contains(told_before[a].handle->0));
                    }
                    if b < told_before.len() {
                        assert(done.contains(told_before[b].handle->0));
                    }
                }
                assert forall|h: SocketHandle| #[trigger]
                    before.pending@.contains_key(h) && !self.pending@.contains_key(h) implies exists|
                    c: int,
                |
                    0 <= c < completions@.len() && (#[trigger] completions@[c]).handle == Some(
                        h,
                    ) by {
                    if sofar.pending@.contains_key(h) {
                        assert(completions@[told_before.len() as int].handle == Some(h));
                    } else {
                        let c = choose|c: int|
                            0 <= c < told_before.len() && (#[trigger] told_before[c]).handle
                                == Some(h);
                        assert(completions@[c].handle == Some(h));
                    }
                }
                assert forall|j: int|
                    i + 1 <= j < keys.len() implies self.pending@.contains_key(
                    #[trigger] keys[j],
                ) by {
                    assert(keys[j] != keys[i as int]);
                }
            }
            i = i + 1;
        }
        proof {
            assert(keys.take(i as int) =~= keys);
            assert(keys.to_set() =~= before.pending@.dom()) by {
                assert forall|h: SocketHandle| keys.to_set().contains(h)
                    == before.pending@.dom().contains(h) by {
                    if before.pending@.contains_key(h) {
                        assert(keys.contains(h));
                    }
                    if keys.contains(h) {
                        let j = choose|j: int| 0 <= j < keys.len() && keys[j] == h;
                        assert(before.pending@.contains_key(keys[j]));
                    }
                }
            }
            assert forall|h: SocketHandle| #[trigger] self.pending@.contains_key(h) implies
                self.undecided(h) by {
                assert(before.pending@.contains_key(h));
                assert(keys.contains(h));
                let j = choose|j: int| 0 <= j < keys.len() && keys[j] == h;
                assert(self.pending@.contains_key(keys[j]));
            }
        }
        completions
    }

    /// Everybody who waited was told that the proxy is gone; nobody waits.
    pub open spec fn pending_failed(
        &self,
        before: &Stack<R>,
        completions: Seq<Completion<R>>,
    ) -> bool {
        &&& self.same_setup(before)
        &&& self.socks() == before.socks()
        &&& self.listeners@ == before.listeners@
        &&& self.tcp_states@ == before.tcp_states@
        &&& self.udp_states@ == before.udp_states@
        &&& self.pending@.dom() == Set::<SocketHandle>::empty()
        &&& all_told(before.pending@, self.pending@, completions)
        &&& forall|i: int|
            0 <= i < completions.len() ==> (#[trigger] completions[i]).result is Err
                && completions[i].result->Err_0.reads(
                ErrorKind::ConnectionAborted,
                "proxy connection lost"@,
            )
    }

    /// Tell everybody who waits that the proxy is gone.
    pub fn fail_all_pending(&mut self) -> (completions: Vec<Completion<R>>)
        requires
            old(self).wf(),
        ensures
            final(self).wf(),
            final(self).pending_failed(old(self), completions@),
    {
        let ghost before = *self;
        let handles = self.pending.keys();
        let mut completions: Vec<Completion<R>> = Vec::new();
        let mut i: usize = 0;
        while i < handles.len()
            invariant
                before.wf(),
                handles@.no_duplicates(),
                i <= handles@.len(),
                self.pending.wf(),
                self.same_setup(&before),
                self.sockets == before.sockets,
                self.iface == before.iface,
                net::owns_storage(self.sockets),
                self.listeners == before.listeners,
                self.tcp_states == before.tcp_states,
                self.udp_states == before.udp_states,
                forall|j: int|
                    0 <= j < handles@.len() ==> before.pending@.contains_key(
                        #[trigger] handles@[j],
                    ),
                forall|j: int|
                    i <= j < handles@.len() ==> self.pending@.contains_key(#[trigger] handles@[j]),
                forall|j: int|
                    0 <= j < i ==> !self.pending@.contains_key(#[trigger] handles@[j]),
                forall|h: SocketHandle| #[trigger]
                    self.pending@.contains_key(h) ==> before.pending@.contains_key(h)
                        && self.pending@[h] == before.pending@[h],
                completions@.len() == i,
                forall|j: int|
                    0 <= j < i ==> told(
                        #[trigger] completions@[j],
                        handles@[j],
                        waiting(before.pending@[handles@[j]]),
                    ),
                forall|j: int|
                    0 <= j < i ==> (#[trigger] completions@[j]).result is Err
                        && completions@[j].result->Err_0.reads(
                        ErrorKind::ConnectionAborted,
                        "proxy connection lost"@,
                    ),
            decreases handles@.len() - i,
        {
            let handle = handles[i];
            assert(self.pending@.contains_key(handles@[i as int]));
            match self.pending.remove(handle) {
                Some(op) => {
                    let response = match op {
                        PendingOp::TcpConnect { response, .. } => response,
                        PendingOp::TcpAccept { response } => response,
                    };
                    let error = Error::new(ErrorKind::ConnectionAborted, "proxy connection lost");
                    completions.push(
                        Completion { handle: Some(handle), response, result: Err(error) },
                    );
                },
                None => {},
            }
            i = i + 1;
        }
        proof {
            assert forall|h: SocketHandle| !self.pending@.dom().contains(h) by {
                if self.pending@.contains_key(h) {
                    assert(before.pending@.contains_key(h));
                    assert(handles@.contains(h));
                    let j = choose|j: int| 0 <= j < handles@.len() && handles@[j] == h;
                    assert(!self.pending@.contains_key(handles@[j]));
                }
            }
            assert(self.pending@.dom() =~= Set::<SocketHandle>::empty());
            self.lemma_kinds_kept(before);
            assert forall|h: SocketHandle| #[trigger]
                before.pending@.contains_key(h) && !self.pending@.contains_key(h) implies exists|
                c: int,
            |
                0 <= c < completions@.len() && (#[trigger] completions@[c]).handle == Some(h) by {
                assert(handles@.contains(h));
                let j = choose|j: int| 0 <= j < handles@.len() && handles@[j] == h;
                assert(told(completions@[j], handles@[j], waiting(before.pending@[handles@[j]])));
            }
            assert forall|a: int, b: int|
                0 <= a < completions@.len() && 0 <= b < completions@.len() && a != b implies (
            #[trigger] completions@[a]).handle != (#[trigger] completions@[b]).handle by {
                assert(told(completions@[a], handles@[a], waiting(before.pending@[handles@[a]])));
                assert(told(completions@[b], handles@[b], waiting(before.pending@[handles@[b]])));
            }
        }
        completions
    }
}

/// Maximum number of ingress packets to process per poll iteration.
///
/// This bounds the work done in each iteration, so that other tasks run too
/// when many packets are queued.
pub const INGRESS_BATCH_SIZE: usize = 16;

/// Maximum poll interval in microseconds.
///
/// The stack polls at least this often, even if the interface does not ask for
/// it.
pub const MAX_POLL_INTERVAL_MICROS: u64 = 1000;

/// How long to wait before the next poll, when the interface asks for `delay`.
pub open spec fn interval(delay: Option<u64>) -> u64 {
    match delay {
        Some(delay) if delay < MAX_POLL_INTERVAL_MICROS => delay,
        _ => MAX_POLL_INTERVAL_MICROS,
    }
}

/// How long to wait before the next poll, when the interface asks for `delay`.
pub fn clamp_poll_delay(delay: Option<u64>) -> (micros: u64)
    ensures
        micros == interval(delay),
{
    match delay {
        Some(delay) => if delay < MAX_POLL_INTERVAL_MICROS {
            delay
        } else {
            MAX_POLL_INTERVAL_MICROS
        },
        None => MAX_POLL_INTERVAL_MICROS,
    }
}

/// What came of polling the interface for one packet.
#[derive(Clone, Copy, Debug, PartialEq, Eq, Structural)]
pub enum Ingress {
    Nothing,
    PacketProcessed,
    SocketStateChanged,
}

/// The packets of one poll iteration.
#[derive(Debug)]
pub struct IngressBatch {
    /// How many packets can still come.
    pub left: usize,
    /// A socket has changed its state.
    pub changed: bool,
}

/// What a batch has seen is `results`: it goes on until nothing came, or until
/// it is full.
pub open spec fn batch_of(batch: IngressBatch, results: Seq<Ingress>) -> bool {
    &&& batch.changed == results.contains(Ingress::SocketStateChanged)
    &&& results.len() <= INGRESS_BATCH_SIZE
    &&& batch.left == if results.contains(Ingress::Nothing) {
        0
    } else {
        INGRESS_BATCH_SIZE - results.len()
    }
}

impl IngressBatch {
    pub fn new() -> (batch: IngressBatch)
        ensures
            batch_of(batch, Seq::empty()),
    {
        IngressBatch { left: INGRESS_BATCH_SIZE, changed: false }
    }

    /// Whether to poll for another packet.
    pub fn wants_more(&self) -> (more: bool)
        ensures
            more == (self.left > 0),
    {
        self.left > 0
    }

    /// Take note of what came of a poll.
    pub fn note(&mut self, result: Ingress)
        requires
            old(self).left > 0,
        ensures
            final(self).changed == (old(self).changed || result == Ingress::SocketStateChanged),
            final(self).left == if result == Ingress::Nothing {
                0
            } else {
                old(self).left - 1
            },
            forall|results: Seq<Ingress>| #[trigger]
                batch_of(*old(self), results) ==> batch_of(*final(self), results.push(result)),
    {
        let ghost before = *self;
        match result {
            Ingress::Nothing => {
                self.left = 0;
            },
            Ingress::PacketProcessed => {
                self.left = self.left - 1;
            },
            Ingress::SocketStateChanged => {
                self.left = self.left - 1;
                self.changed = true;
            },
        }
        proof {
            assert forall|results: Seq<Ingress>| #[trigger] batch_of(before, results) implies batch_of(
                *self,
                results.push(result),
            ) by {
                let more = results.push(result);
                assert(more[results.len() as int] == result);
                assert forall|kind: Ingress| results.contains(kind) implies more.contains(kind) by {
                    let i = choose|i: int| 0 <= i < results.len() && results[i] == kind;
                    assert(more[i] == kind);
                }
                assert forall|kind: Ingress| more.contains(kind) && kind
                    != result implies results.contains(kind) by {
                    let i = choose|i: int| 0 <= i < more.len() && more[i] == kind;
                    assert(results[i] == kind);
                }
            }
        }
    }
}

impl<R> Stack<R> {
    /// How long to wait before the next poll, in microseconds. `now` is the time
    /// since the stack was started.
    pub fn poll_interval(&mut self, now: i64) -> (micros: u64)
        requires
            old(self).wf(),
            now >= 0,
        ensures
            final(self).wf(),
            final(self).same(old(self)),
            micros == interval(net::next_poll(old(self).iface, old(self).sockets, now)),
    {
        let delay = net::iface_poll_delay(&mut self.iface, &self.sockets, now);
        clamp_poll_delay(delay)
    }

    /// What the end of a round does: received data goes to the channels, then
    /// those who wait are told what is known, then, if the proxy is gone, all
    /// others.
    pub open spec fn round_finished(
        &self,
        before: &Stack<R>,
        changed: bool,
        ipc_dead: bool,
        read: Stack<R>,
        told: Stack<R>,
        split: int,
        completions: Seq<Completion<R>>,
        from: TunnelStatsSnapshot,
        to: TunnelStatsSnapshot,
    ) -> bool {
        &&& read.polled(before, false, from, to)
        &&& read.wf()
        &&& 0 <= split <= completions.len()
        &&& if changed {
            told.pending_processed(&read, completions.take(split))
        } else {
            told == read && split == 0
        }
        &&& if ipc_dead {
            self.pending_failed(&told, completions.skip(split))
        } else {
            *self == told && split == completions.len()
        }
    }

    /// End a round after the interface was polled. Says whom to tell, and
    /// whether the stack is at its end.
    pub fn finish_round(
        &mut self,
        changed: bool,
        ipc_dead: bool,
        stats: &mut TunnelStats,
    ) -> (outcome: (Vec<Completion<R>>, bool))
        requires
            old(self).wf(),
        ensures
            final(self).wf(),
            outcome.1 == ipc_dead,
            exists|read: Stack<R>, told: Stack<R>, split: int|
                #[trigger] final(self).round_finished(
                    old(self),
                    changed,
                    ipc_dead,
                    read,
                    told,
                    split,
                    outcome.0@,
                    old(stats).counts(),
                    final(stats).counts(),
                ),
            ipc_dead ==> final(self).pending@.dom() == Set::<SocketHandle>::empty(),
    {
        self.poll_read_channels(stats);
        let ghost read = *self;
        let mut completions: Vec<Completion<R>> = if changed {
            self.process_pending()
        } else {
            Vec::new()
        };
        let ghost told = *self;
        let ghost first = completions@;
        let ghost split = completions@.len() as int;
        if ipc_dead {
            let mut more = self.fail_all_pending();
            let ghost second = more@;
            completions.append(&mut more);
            assert(completions@.take(split) =~= first);
            assert(completions@.skip(split) =~= second);
        } else {
            assert(completions@.take(split) =~= first);
        }
        let outcome = (completions, ipc_dead);
        assert(self.round_finished(
            old(self),
            changed,
            ipc_dead,
            read,
            told,
            split,
            outcome.0@,
            old(stats).counts(),
            stats.counts(),
        ));
        outcome
    }
}

/// What ended the wait for the next round.
pub enum Wakeup<R> {
    Command(StackCommand<R>),
    /// Nobody can give commands any more.
    Disconnected,
    /// Data was written to a channel.
    Written,
    Timeout,
}

impl<R> Stack<R> {
    /// What the start of a round does: a command is carried out, then written
    /// data goes to the sockets.
    pub open spec fn round_begun(
        &self,
        before: &Stack<R>,
        wakeup: Wakeup<R>,
        port: u16,
        middle: Stack<R>,
        reply: Option<Reply<R>>,
        from: TunnelStatsSnapshot,
        to: TunnelStatsSnapshot,
    ) -> bool {
        match wakeup {
            Wakeup::Command(command) => {
                &&& reply is Some
                &&& middle.handled(before, command, port, reply->0)
                &&& middle.wf()
                &&& self.polled(&middle, true, from, to)
            },
            Wakeup::Disconnected => {
                reply is None && middle == *before && *self == *before && to == from
            },
            _ => {
                &&& reply == Some(Reply::<R>::Nothing)
                &&& middle == *before
                &&& self.polled(&middle, true, from, to)
            },
        }
    }

    /// Begin a round. Hands back what a command is answered with, and nothing
    /// at all where the stack is at its end.
    pub fn begin_round(
        &mut self,
        wakeup: Wakeup<R>,
        ports: &mut EphemeralPorts,
        stats: &mut TunnelStats,
    ) -> (reply: Option<Reply<R>>)
        requires
            old(self).wf(),
            wakeup matches Wakeup::Command(command) ==> old(self).accepts(command),
        ensures
            final(self).wf(),
            final(ports).next() == match wakeup {
                Wakeup::Command(command) => Self::port_after(command, old(ports).next()),
                _ => old(ports).next(),
            },
            exists|middle: Stack<R>|
                #[trigger] final(self).round_begun(
                    old(self),
                    wakeup,
                    old(ports).next(),
                    middle,
                    reply,
                    old(stats).counts(),
                    final(stats).counts(),
                ),
    {
        let reply: Reply<R> = match wakeup {
            Wakeup::Command(command) => self.handle_command(command, ports),
            Wakeup::Disconnected => {
                assert(self.round_begun(
                    old(self),
                    wakeup,
                    old(ports).next(),
                    *self,
                    None,
                    old(stats).counts(),
                    stats.counts(),
                ));
                return None;
            },
            Wakeup::Written => Reply::Nothing,
            Wakeup::Timeout => Reply::Nothing,
        };
        let ghost middle = *self;
        self.poll_write_channels(stats);
        let reply = Some(reply);
        assert(self.round_begun(
            old(self),
            wakeup,
            old(ports).next(),
            middle,
            reply,
            old(stats).counts(),
            stats.counts(),
        ));
        reply
    }
}

/// Whoever waits for a connection is told as soon as its socket is connected, with
/// the ends and the channels that were kept, or as soon as it failed. Whoever waits
/// for a listener is told as soon as one of its sockets is connected, with the ends
/// of that socket, or as soon as the listener is gone. All others go on waiting,
/// and nothing changes for them.
pub proof fn answers_tell_what_became_of_it<R>(
    stack: &mut Stack<R>,
    handle: SocketHandle,
    completion: Option<Completion<R>>,
)
    requires
        call_ensures(Stack::<R>::answer, (stack, handle), completion),
    ensures
        ({
            let was = net::sockets_view(old(stack).sockets);
            let now = net::sockets_view(final(stack).sockets);
            let waits = old(stack).pending@.contains_key(handle);
            let state = was[handle]->Tcp_0.state;
            let list = old(stack).listeners@[handle].listening_handles@;
            let connected = exists|i: int|
                0 <= i < list.len() && was[#[trigger] list[i]]->Tcp_0.state
                    == TcpState::Established && was[list[i]]->Tcp_0.tuple is Some;
            &&& !waits ==> completion is None
            &&& completion is None ==> {
                &&& now == was
                &&& final(stack).pending@ == old(stack).pending@
                &&& final(stack).listeners@ == old(stack).listeners@
                &&& final(stack).tcp_states@ == old(stack).tcp_states@
            }
            &&& waits && old(stack).pending@[handle] is TcpConnect ==> (completion is Some <==> (state
                == TcpState::Established || state == TcpState::Closed || state
                == TcpState::TimeWait))
            &&& waits && old(stack).pending@[handle] is TcpAccept ==> (completion is Some <==> !old(
                stack).listeners@.contains_key(handle) || connected)
            &&& completion matches Some(completion) ==> {
                &&& completion.handle == Some(handle)
                &&& final(stack).pending@ == old(stack).pending@.remove(handle)
                &&& match old(stack).pending@[handle] {
                    PendingOp::TcpConnect { local_addr, peer_addr, channels, response } => {
                        &&& completion.response == response
                        &&& completion.result is Ok <==> state == TcpState::Established
                        &&& completion.result matches Ok(connected) ==> {
                            &&& connected.handle == handle
                            &&& connected.local == local_addr
                            &&& connected.peer == peer_addr
                            &&& connected.channels == channels
                            &&& final(stack).tcp_states@ == old(stack).tcp_states@
                        }
                        &&& completion.result matches Err(error) ==> {
                            &&& error.kind == ErrorKind::ConnectionRefused
                            &&& error.message@ == "connection failed"@
                            &&& final(stack).tcp_states@ == old(stack).tcp_states@.remove(handle)
                        }
                        &&& now == was
                        &&& final(stack).listeners@ == old(stack).listeners@
                    },
                    PendingOp::TcpAccept { response } => {
                        &&& completion.response == response
                        &&& completion.result is Ok <==> old(stack).listeners@.contains_key(handle)
                        &&& completion.result matches Err(error) ==> {
                            &&& error.kind == ErrorKind::InvalidInput
                            &&& error.message@ == "listener closed"@
                            &&& now == was
                            &&& final(stack).tcp_states@ == old(stack).tcp_states@
                        }
                        &&& completion.result matches Ok(connected) ==> {
                            &&& list.contains(connected.handle)
                            &&& was[connected.handle]->Tcp_0.state == TcpState::Established
                            &&& was[connected.handle]->Tcp_0.tuple matches Some(tuple) && {
                                &&& match connected.peer {
                                    SocketAddr::V4(v4) => tuple.remote.ip == IpAddr::V4(v4.ip)
                                        && tuple.remote.port == v4.port,
                                    SocketAddr::V6(v6) => tuple.remote.ip == IpAddr::V6(v6.ip)
                                        && tuple.remote.port == v6.port,
                                }
                                &&& match connected.local {
                                    SocketAddr::V4(v4) => tuple.local.ip == IpAddr::V4(v4.ip)
                                        && tuple.local.port == v4.port,
                                    SocketAddr::V6(v6) => tuple.local.ip == IpAddr::V6(v6.ip)
                                        && tuple.local.port == v6.port,
                                }
                            }
                            &&& final(stack).tcp_states@.contains_key(connected.handle)
                            &&& final(stack).listeners@[handle].listening_handles@.len()
                                == list.len()
                            &&& exists|i: int|
                                0 <= i < list.len() && #[trigger] list[i] == connected.handle
                                    && forall|j: int|
                                    0 <= j < i ==> was[#[trigger] list[j]]->Tcp_0.state
                                        != TcpState::Established || was[list[j]]->Tcp_0.tuple is None
                            &&& now[final(stack).listeners@[handle].listening_handles@.last()] matches SocketView::Tcp(
                                socket,
                            ) && socket.state == TcpState::Listen
                            &&& channels::sender_view(connected.channels.write_tx).channel
                                == channels::receiver_view(
                                final(stack).tcp_states@[connected.handle].write_rx,
                            ).channel
                            &&& final(stack).tcp_states@[connected.handle].read_tx matches Some(
                                read_tx,
                            ) && channels::sender_view(read_tx).channel == channels::receiver_view(
                                connected.channels.read_rx,
                            ).channel
                        }
                    },
                }
            }
            &&& forall|h: SocketHandle|
                was.contains_key(h) ==> #[trigger] now[h] == was[h]
            &&& final(stack).udp_states@ == old(stack).udp_states@
            &&& final(stack).config == old(stack).config
            &&& final(stack).write_notify == old(stack).write_notify
            &&& net::iface_view(final(stack).iface) == net::iface_view(old(stack).iface)
        }),
{
    let was = net::sockets_view(old(stack).sockets);
    let list = old(stack).listeners@[handle].listening_handles@;
    if old(stack).pending@.contains_key(handle) && old(stack).pending@[handle] is TcpAccept && old(
        stack).listeners@.contains_key(handle) {
        if handlers::none_ready(was, list) {
            assert forall|i: int| 0 <= i < list.len() implies !(was[#[trigger] list[i]]->Tcp_0.state
                == TcpState::Established && was[list[i]]->Tcp_0.tuple is Some) by {
                assert(!handlers::ready(was, list[i]));
            }
        } else {
            let connected = completion->0.result->Ok_0;
            let i = choose|i: int|
                #[trigger] final(stack).connection_accepted(old(stack), handle, i, connected);
            assert(list[i] == connected.handle);
            assert forall|j: int| 0 <= j < i implies was[#[trigger] list[j]]->Tcp_0.state
                != TcpState::Established || was[list[j]]->Tcp_0.tuple is None by {
                assert(!handlers::ready(was, list[j]));
            }
        }
    }
}

/// After the first `m` of those who wait were dealt with, the sockets that were
/// there are as they were, and so is what was kept for the others.
proof fn lemma_dealt_with<R>(
    before: Stack<R>,
    after: Stack<R>,
    keys: Seq<SocketHandle>,
    steps: Seq<Stack<R>>,
    answers: Seq<Option<Completion<R>>>,
    m: int,
)
    requires
        dealt_with(before, after, keys, steps, answers),
        keys.no_duplicates(),
        0 <= m <= keys.len(),
    ensures
        steps[m].udp_states@ == before.udp_states@,
        before.wf() ==> forall|h: SocketHandle| #[trigger]
            before.tcp_states@.contains_key(h) && steps[m].tcp_states@.contains_key(h)
                ==> steps[m].tcp_states@[h] == before.tcp_states@[h],
        forall|h: SocketHandle| #[trigger]
            before.socks().contains_key(h) ==> steps[m].socks().contains_key(h)
                && steps[m].socks()[h] == before.socks()[h],
        forall|j: int|
            #![trigger keys[j]]
            m <= j < keys.len() ==> {
                &&& steps[m].pending@.contains_key(keys[j]) == before.pending@.contains_key(keys[j])
                &&& steps[m].pending@[keys[j]] == before.pending@[keys[j]]
                &&& steps[m].listeners@.contains_key(keys[j]) == before.listeners@.contains_key(
                    keys[j],
                )
                &&& steps[m].listeners@[keys[j]] == before.listeners@[keys[j]]
            },
    decreases m,
{
    if m > 0 {
        lemma_dealt_with(before, after, keys, steps, answers, m - 1);
        let last = steps[m - 1];
        let next = steps[m];
        let handle = keys[m - 1];
        assert(steps[(m - 1) + 1].answered(&last, handle, answers[m - 1]));
        if last.pending@.contains_key(handle) && last.pending@[handle] is TcpAccept
            && last.listeners@.contains_key(handle) && !handlers::none_ready(
            last.socks(),
            last.listeners@[handle].listening_handles@,
        ) {
            let connected = answers[m - 1]->0.result->Ok_0;
            let i = choose|i: int|
                #[trigger] next.connection_accepted(&last, handle, i, connected);
            if before.wf() {
                let list = before.listeners@[handle].listening_handles@;
                assert(before.listeners@.contains_key(handle));
                assert(list[i] == connected.handle);
                assert(!before.tcp_states@.contains_key(list[i]));
            }
        }
        assert(before.wf() ==> forall|h: SocketHandle| #[trigger]
            before.tcp_states@.contains_key(h) && next.tcp_states@.contains_key(h)
                ==> next.tcp_states@[h] == before.tcp_states@[h]) by {
            if before.wf() {
                assert forall|h: SocketHandle| #[trigger]
                    before.tcp_states@.contains_key(h) && next.tcp_states@.contains_key(
                        h,
                    ) implies next.tcp_states@[h] == before.tcp_states@[h] by {
                    assert(last.tcp_states@.contains_key(h));
                }
            }
        }
        assert forall|h: SocketHandle| #[trigger] before.socks().contains_key(h) implies
            next.socks().contains_key(h) && next.socks()[h] == before.socks()[h] by {
            assert(last.socks().contains_key(h));
        }
        assert forall|j: int|
            #![trigger keys[j]]
            m <= j < keys.len() implies {
            &&& next.pending@.contains_key(keys[j]) == before.pending@.contains_key(keys[j])
            &&& next.pending@[keys[j]] == before.pending@[keys[j]]
            &&& next.listeners@.contains_key(keys[j]) == before.listeners@.contains_key(keys[j])
            &&& next.listeners@[keys[j]] == before.listeners@[keys[j]]
        } by {
            assert(keys[j] != keys[m - 1]);
            assert(last.pending@.contains_key(keys[j]) == before.pending@.contains_key(keys[j]));
        }
    }
}

proof fn lemma_given_contains<R>(answers: Seq<Option<Completion<R>>>, j: int) -> (c: int)
    requires
        0 <= j < answers.len(),
        answers[j] is Some,
    ensures
        0 <= c < given(answers).len(),
        given(answers)[c] == answers[j]->0,
    decreases answers.len(),
{
    let init = answers.drop_last();
    if j < init.len() {
        lemma_given_contains(init, j)
    } else {
        given(init).len() as int
    }
}

/// When those who wait are dealt with, whoever waits for a connection that came
/// about is told of it, with the ends and the channels that were kept; whoever waits
/// for one that failed is told so. Each is told once, and does not wait any more.
pub proof fn everyone_is_told_once<R>(
    stack: &mut Stack<R>,
    completions: Vec<Completion<R>>,
    handle: SocketHandle,
)
    requires
        old(stack).wf(),
        call_ensures(Stack::<R>::process_pending, (stack,), completions),
        old(stack).pending@.contains_key(handle),
    ensures
        ({
            let was = net::sockets_view(old(stack).sockets);
            let now = net::sockets_view(final(stack).sockets);
            let waits = final(stack).pending@.contains_key(handle);
            let state = was[handle]->Tcp_0.state;
            let list = old(stack).listeners@[handle].listening_handles@;
            &&& waits <==> forall|i: int|
                0 <= i < completions@.len() ==> (#[trigger] completions@[i]).handle != Some(handle)
            &&& forall|i: int, j: int|
                0 <= i < j < completions@.len() ==> (#[trigger] completions@[i]).handle != (
                #[trigger] completions@[j]).handle
            &&& waits ==> final(stack).pending@[handle] == old(stack).pending@[handle]
            &&& old(stack).pending@[handle] is TcpConnect ==> (waits <==> (state
                != TcpState::Established && state != TcpState::Closed && state
                != TcpState::TimeWait))
            &&& old(stack).pending@[handle] is TcpAccept ==> (waits <==> old(
                stack).listeners@.contains_key(handle) && forall|i: int|
                0 <= i < list.len() ==> was[#[trigger] list[i]]->Tcp_0.state
                    != TcpState::Established || was[list[i]]->Tcp_0.tuple is None)
            &&& forall|i: int|
                0 <= i < completions@.len() && (#[trigger] completions@[i]).handle == Some(handle)
                    ==> match old(stack).pending@[handle] {
                    PendingOp::TcpConnect { local_addr, peer_addr, channels, response } => {
                        &&& completions@[i].response == response
                        &&& completions@[i].result is Ok <==> state == TcpState::Established
                        &&& completions@[i].result matches Ok(connected) ==> {
                            &&& connected.handle == handle
                            &&& connected.local == local_addr
                            &&& connected.peer == peer_addr
                            &&& connected.channels == channels
                        }
                        &&& completions@[i].result matches Err(error) ==> error.kind
                            == ErrorKind::ConnectionRefused
                    },
                    PendingOp::TcpAccept { response } => {
                        &&& completions@[i].response == response
                        &&& completions@[i].result is Ok <==> old(stack).listeners@.contains_key(
                            handle,
                        )
                        &&& completions@[i].result matches Ok(connected) ==> {
                            &&& list.contains(connected.handle)
                            &&& was[connected.handle]->Tcp_0.state == TcpState::Established
                            &&& was[connected.handle]->Tcp_0.tuple matches Some(tuple) && match connected.peer {
                                SocketAddr::V4(v4) => tuple.remote.ip == IpAddr::V4(v4.ip)
                                    && tuple.remote.port == v4.port,
                                SocketAddr::V6(v6) => tuple.remote.ip == IpAddr::V6(v6.ip)
                                    && tuple.remote.port == v6.port,
                            }
                        }
                        &&& completions@[i].result matches Err(error) ==> error.kind
                            == ErrorKind::InvalidInput
                    },
                }
            &&& forall|h: SocketHandle| #[trigger]
                was.contains_key(h) ==> now.contains_key(h) && now[h] == was[h]
        }),
{
    let before = *old(stack);
    let (keys, steps, answers) = choose|
        keys: Seq<SocketHandle>,
        steps: Seq<Stack<R>>,
        answers: Seq<Option<Completion<R>>>,
    |
        #![trigger dealt_with(before, *final(stack), keys, steps, answers)]
        {
            &&& keys.no_duplicates()
            &&& keys.to_set() == before.pending@.dom()
            &&& dealt_with(before, *final(stack), keys, steps, answers)
            &&& completions@ == given(answers)
        };
    assert(keys.to_set().contains(handle));
    let j = choose|j: int| 0 <= j < keys.len() && keys[j] == handle;
    lemma_dealt_with(before, *final(stack), keys, steps, answers, keys.len() as int);
    lemma_dealt_with(before, *final(stack), keys, steps, answers, j);
    assert(steps[j + 1].answered(&steps[j], keys[j], answers[j]));
    assert(is_tcp(before.socks(), handle));
    assert(before.socks().contains_key(handle));
    if answers[j] is Some {
        let c = lemma_given_contains(answers, j);
        assert(completions@[c].handle == Some(handle));
        if before.pending@[handle] is TcpAccept && answers[j]->0.result is Ok {
            let connected = answers[j]->0.result->Ok_0;
            let i = choose|i: int|
                #[trigger] steps[j + 1].connection_accepted(&steps[j], handle, i, connected);
            let list = before.listeners@[handle].listening_handles@;
            assert(list[i] == connected.handle);
            assert(is_tcp(before.socks(), list[i]));
            assert(before.socks().contains_key(list[i]));
        }
    }
    assert forall|i: int|
        0 <= i < completions@.len() && (#[trigger] completions@[i]).handle == Some(
            handle,
        ) implies answers[j] is Some && completions@[i] == answers[j]->0 by {
        let at = lemma_given_origin(answers, i);
        assert(steps[at + 1].answered(&steps[at], keys[at], answers[at]));
        assert(keys[at] == handle);
    }
    if final(stack).pending@.contains_key(handle) {
        assert(final(stack).undecided(handle));
    }
    if before.pending@[handle] is TcpAccept && before.listeners@.contains_key(handle) {
        let list = before.listeners@[handle].listening_handles@;
        assert forall|i: int| 0 <= i < list.len() implies (handlers::ready(
            steps[j].socks(),
            #[trigger] list[i],
        ) <==> was_ready(before, list[i])) by {
            assert(is_tcp(before.socks(), list[i]));
            assert(before.socks().contains_key(list[i]));
        }
        if handlers::none_ready(steps[j].socks(), list) {
            assert forall|i: int| 0 <= i < list.len() implies !was_ready(
                before,
                #[trigger] list[i],
            ) by {
                assert(!handlers::ready(steps[j].socks(), list[i]));
            }
        } else {
            let i = choose|i: int|
                0 <= i < list.len() && handlers::ready(steps[j].socks(), #[trigger] list[i]);
            assert(was_ready(before, list[i]));
        }
    }
}

/// The socket had a connection to hand out.
spec fn was_ready<R>(before: Stack<R>, handle: SocketHandle) -> bool {
    before.socks()[handle]->Tcp_0.state == TcpState::Established
        && before.socks()[handle]->Tcp_0.tuple is Some
}

proof fn lemma_given_origin<R>(answers: Seq<Option<Completion<R>>>, c: int) -> (j: int)
    requires
        0 <= c < given(answers).len(),
    ensures
        0 <= j < answers.len(),
        answers[j] is Some,
        answers[j]->0 == given(answers)[c],
    decreases answers.len(),
{
    let init = answers.drop_last();
    if c < given(init).len() {
        lemma_given_origin(init, c)
    } else {
        answers.len() - 1
    }
}

/// When the proxy is gone, everybody who waits is told so, once, and nobody waits
/// any more. Nothing else changes.
pub proof fn nobody_waits_without_the_proxy<R>(
    stack: &mut Stack<R>,
    completions: Vec<Completion<R>>,
    handle: SocketHandle,
)
    requires
        call_ensures(Stack::<R>::fail_all_pending, (stack,), completions),
    ensures
        !final(stack).pending@.contains_key(handle),
        old(stack).pending@.contains_key(handle) <==> exists|i: int|
            0 <= i < completions@.len() && (#[trigger] completions@[i]).handle == Some(handle),
        forall|i: int|
            0 <= i < completions@.len() ==> {
                &&& (#[trigger] completions@[i]).handle matches Some(h) && match old(
                    stack).pending@[h] {
                    PendingOp::TcpConnect { response, .. } => completions@[i].response == response,
                    PendingOp::TcpAccept { response } => completions@[i].response == response,
                }
                &&& completions@[i].result matches Err(error) && error.kind
                    == ErrorKind::ConnectionAborted && error.message@ == "proxy connection lost"@
            },
        forall|i: int, j: int|
            0 <= i < j < completions@.len() ==> (#[trigger] completions@[i]).handle != (
            #[trigger] completions@[j]).handle,
        net::sockets_view(final(stack).sockets) == net::sockets_view(old(stack).sockets),
        final(stack).listeners@ == old(stack).listeners@,
        final(stack).tcp_states@ == old(stack).tcp_states@,
        final(stack).udp_states@ == old(stack).udp_states@,
        final(stack).config == old(stack).config,
        final(stack).write_notify == old(stack).write_notify,
{
    assert(!final(stack).pending@.dom().contains(handle));
    if exists|i: int|
        0 <= i < completions@.len() && (#[trigger] completions@[i]).handle == Some(handle) {
        let i = choose|i: int|
            0 <= i < completions@.len() && (#[trigger] completions@[i]).handle == Some(handle);
        assert(old(stack).pending@.contains_key(completions@[i].handle->0));
    }
}

/// Between two polls goes the time that the interface asks for, but never more
/// than a millisecond. Asking changes nothing.
pub proof fn polls_are_a_millisecond_apart_at_most<R>(stack: &mut Stack<R>, now: i64, micros: u64)
    requires
        call_ensures(Stack::<R>::poll_interval, (stack, now), micros),
    ensures
        micros <= 1000,
        net::next_poll(old(stack).iface, old(stack).sockets, now) matches Some(delay) ==> micros
            <= delay && (micros == delay || micros == 1000),
        net::next_poll(old(stack).iface, old(stack).sockets, now) is None ==> micros == 1000,
        net::sockets_view(final(stack).sockets) == net::sockets_view(old(stack).sockets),
        final(stack).pending@ == old(stack).pending@,
        final(stack).listeners@ == old(stack).listeners@,
        final(stack).tcp_states@ == old(stack).tcp_states@,
        final(stack).udp_states@ == old(stack).udp_states@,
        net::iface_view(final(stack).iface) == net::iface_view(old(stack).iface),
{
}

/// A delay is cut to a millisecond, and shorter ones stay as they are.
pub proof fn delays_are_cut(delay: Option<u64>, micros: u64)
    requires
        call_ensures(clamp_poll_delay, (delay,), micros),
    ensures
        micros <= 1000,
        delay matches Some(delay) ==> micros <= delay && (micros == delay || micros == 1000),
        delay is None ==> micros == 1000,
{
}

/// A batch begins with room for 16 packets and ends when nothing came or when they
/// are used up; it keeps in mind whether a socket has changed its state.
pub proof fn batches_have_sixteen_packets(
    fresh: IngressBatch,
    batch: &mut IngressBatch,
    result: Ingress,
)
    requires
        call_ensures(IngressBatch::new, (), fresh),
        call_ensures(IngressBatch::note, (batch, result), ()),
    ensures
        fresh.left == 16 && !fresh.changed,
        result is Nothing ==> final(batch).left == 0 && final(batch).changed == old(batch).changed,
        result is PacketProcessed ==> final(batch).left == old(batch).left - 1 && final(
            batch).changed == old(batch).changed,
        result is SocketStateChanged ==> final(batch).left == old(batch).left - 1 && final(
            batch).changed,
{
    let none = Seq::<Ingress>::empty();
    assert(!none.contains(Ingress::Nothing) && !none.contains(Ingress::SocketStateChanged));
}

/// More packets are wanted as long as the batch has room.
pub proof fn batches_go_on_while_there_is_room(batch: &IngressBatch, more: bool)
    requires
        call_ensures(IngressBatch::wants_more, (batch,), more),
    ensures
        more <==> batch.left > 0,
{
}

/// A round of reading goes to every TCP socket that has channels: what it has
/// received goes to its own channel, byte by byte and in order, as long as that has
/// a place, and what has none stays.
pub proof fn every_tcp_socket_is_read<R>(
    stack: &mut Stack<R>,
    stats: &mut TunnelStats,
    handle: SocketHandle,
)
    requires
        call_ensures(Stack::<R>::poll_read_channels, (stack, stats), ()),
        old(stack).wf(),
        old(stack).tcp_states@.contains_key(handle),
    ensures
        ({
            let was = net::sockets_view(old(stack).sockets)[handle]->Tcp_0;
            let now = net::sockets_view(final(stack).sockets)[handle]->Tcp_0;
            let over = was.incoming.len() == 0 && (was.state == TcpState::CloseWait || was.state
                == TcpState::Closing || was.state == TcpState::LastAck || was.state
                == TcpState::TimeWait || was.state == TcpState::Closed);
            let tx = channels::sender_view(old(stack).tcp_states@[handle].read_tx->0);
            let next_tx = channels::sender_view(final(stack).tcp_states@[handle].read_tx->0);
            let news = next_tx.history.skip(tx.history.len() as int);
            let chunks = Seq::new(news.len() / 2, |i: int| news[2 * i + 1]->Handed_0);
            &&& final(stack).tcp_states@[handle].write_rx == old(stack).tcp_states@[handle].write_rx
            &&& final(stack).tcp_states@[handle].pending_write == old(stack).tcp_states@[handle].pending_write
            &&& now.state == was.state
            &&& now.tuple == was.tuple
            &&& now.outgoing == was.outgoing
            &&& final(stack).tcp_states@[handle].read_tx is Some <==> old(stack).tcp_states@[handle].read_tx is Some && !over
            &&& final(stack).tcp_states@[handle].read_tx is None ==> now.incoming == was.incoming
            &&& final(stack).tcp_states@[handle].read_tx is Some ==> {
                &&& next_tx.channel == tx.channel
                &&& next_tx.history.take(tx.history.len() as int) == tx.history
                &&& forall|i: int|
                    0 <= i < chunks.len() ==> {
                        &&& news[2 * i] == Sending::<Seq<u8>>::Asked(true)
                        &&& news[2 * i + 1] == Sending::Handed(
                            #[trigger] chunks[i],
                            SendOutcome::Sent,
                        )
                        &&& 0 < chunks[i].len() <= 65535
                    }
                &&& chunks.flatten() + now.incoming == was.incoming
                &&& now.incoming.len() == 0 ==> news.len() == 2 * chunks.len()
                &&& now.incoming.len() > 0 ==> news.len() == 2 * chunks.len() + 1 && news.last()
                    == Sending::<Seq<u8>>::Asked(false)
                &&& 0 < was.incoming.len() <= 65535 && chunks.len() > 0 ==> chunks.len() == 1
            }
        }),
        net::sockets_view(final(stack).sockets).contains_key(handle),
        final(stack).pending@ == old(stack).pending@,
        final(stack).listeners@ == old(stack).listeners@,
        final(stack).config == old(stack).config,
        final(stack).write_notify == old(stack).write_notify,
        net::iface_view(final(stack).iface) == net::iface_view(old(stack).iface),
{
    assert(is_tcp(old(stack).socks(), handle));
    assert(old(stack).socks().dom().contains(handle));
    data::lemma_read_told(
        old(stack).socks()[handle]->Tcp_0,
        old(stack).tcp_states@[handle],
        final(stack).socks()[handle]->Tcp_0,
        final(stack).tcp_states@[handle],
    );
}

/// A round of writing goes to every TCP socket that has channels: what was written
/// to its own channel goes to the socket, byte by byte and in order, until the
/// channel has nothing more or the socket no more room.
pub proof fn every_tcp_socket_is_written<R>(
    stack: &mut Stack<R>,
    stats: &mut TunnelStats,
    handle: SocketHandle,
)
    requires
        call_ensures(Stack::<R>::poll_write_channels, (stack, stats), ()),
        old(stack).wf(),
        old(stack).tcp_states@.contains_key(handle),
    ensures
        ({
            let was = net::sockets_view(old(stack).sockets)[handle]->Tcp_0;
            let now = net::sockets_view(final(stack).sockets)[handle]->Tcp_0;
            let open = was.state == TcpState::Established || was.state == TcpState::CloseWait;
            let rx = channels::receiver_view(old(stack).tcp_states@[handle].write_rx);
            let next_rx = channels::receiver_view(final(stack).tcp_states@[handle].write_rx);
            let news = next_rx.history.skip(rx.history.len() as int);
            let dry = news.len() > 0 && news.last() is Missed;
            let count = if dry {
                news.len() - 1
            } else {
                news.len() as int
            };
            let chunks = Seq::new(count as nat, |i: int| news[i]->Took_0);
            let pending = match old(stack).tcp_states@[handle].pending_write {
                Some(data) => data@,
                None => Seq::empty(),
            };
            let left = match final(stack).tcp_states@[handle].pending_write {
                Some(data) => data@,
                None => Seq::empty(),
            };
            &&& next_rx.channel == rx.channel
            &&& next_rx.history.take(rx.history.len() as int) == rx.history
            &&& final(stack).tcp_states@[handle].read_tx == old(stack).tcp_states@[handle].read_tx
            &&& forall|i: int| 0 <= i < count ==> #[trigger] news[i] is Took
            &&& now.outgoing + left == was.outgoing + pending + chunks.flatten()
            &&& was.outgoing.len() <= was.send_capacity ==> now.outgoing.len() <= was.send_capacity
            &&& dry || !open || now.outgoing.len() >= was.send_capacity || count == u64::MAX
            &&& final(stack).tcp_states@[handle].pending_write is Some && open ==> now.outgoing.len()
                >= was.send_capacity
            &&& !open ==> news.len() == 0 && now == was
            &&& dry && news.last()->Missed_0 ==> {
                &&& was.state == TcpState::Established ==> now.state == TcpState::FinWait1
                &&& was.state == TcpState::CloseWait ==> now.state == TcpState::LastAck
            }
            &&& !(dry && news.last()->Missed_0) ==> now.state == was.state
            &&& now.tuple == was.tuple
            &&& now.incoming == was.incoming
            &&& now.send_capacity == was.send_capacity
        }),
        net::sockets_view(final(stack).sockets).contains_key(handle),
        final(stack).pending@ == old(stack).pending@,
        final(stack).listeners@ == old(stack).listeners@,
        final(stack).config == old(stack).config,
        final(stack).write_notify == old(stack).write_notify,
        net::iface_view(final(stack).iface) == net::iface_view(old(stack).iface),
{
    assert(is_tcp(old(stack).socks(), handle));
    assert(old(stack).socks().dom().contains(handle));
    data::lemma_written_told(
        old(stack).socks()[handle]->Tcp_0,
        old(stack).tcp_states@[handle],
        final(stack).socks()[handle]->Tcp_0,
        final(stack).tcp_states@[handle],
    );
}

proof fn lemma_udp_entry<R>(
    before: Stack<R>,
    after: Stack<R>,
    write: bool,
    from: TunnelStatsSnapshot,
    to: TunnelStatsSnapshot,
    handle: SocketHandle,
) -> (counts: (TunnelStatsSnapshot, TunnelStatsSnapshot))
    requires
        before.wf(),
        after.wf(),
        after.polled(&before, write, from, to),
        before.udp_states@.contains_key(handle),
    ensures
        after.udp_states@.contains_key(handle),
        after.socks().contains_key(handle),
        udp_moved(
            write,
            before.socks()[handle],
            before.udp_states@[handle],
            after.socks()[handle],
            after.udp_states@[handle],
            counts.0,
            counts.1,
        ),
{
    let counts = choose|counts: Seq<TunnelStatsSnapshot>| #[trigger]
        after.udp_moved_in_turn(&before, write, counts) && counts[0] == from && counts.last()
            == to;
    before.udp_states.lemma_entries();
    after.udp_states.lemma_entries();
    assert(is_udp(before.socks(), handle));
    assert(before.socks().dom().contains(handle));
    let j = choose|j: int| #[trigger]
        handle_map::entry_at(before.udp_states.entries@, handle, j);
    assert(before.udp_states.entries@[j].0 == handle);
    assert(after.udp_states.entries@[j].0 == handle);
    (counts[j], counts[j + 1])
}

/// A round of reading goes to every UDP socket: its packets go to its own channel,
/// whole and in order, whatever their size up to 65535 bytes, as long as that has a
/// place, and those that have none stay.
pub proof fn every_udp_socket_is_read<R>(
    stack: &mut Stack<R>,
    stats: &mut TunnelStats,
    handle: SocketHandle,
)
    requires
        call_ensures(Stack::<R>::poll_read_channels, (stack, stats), ()),
        old(stack).wf(),
        old(stack).udp_states@.contains_key(handle),
    ensures
        ({
            let was = net::sockets_view(old(stack).sockets)[handle]->Udp_0.incoming;
            let now = net::sockets_view(final(stack).sockets)[handle]->Udp_0.incoming;
            let tx = channels::packet_sender_view(old(stack).udp_states@[handle].read_tx->0);
            let next_tx = channels::packet_sender_view(final(stack).udp_states@[handle].read_tx->0);
            let news = next_tx.history.skip(tx.history.len() as int);
            let count = news.len() / 2;
            &&& final(stack).udp_states@[handle].read_tx is Some
            &&& final(stack).udp_states@[handle].write_rx == old(stack).udp_states@[handle].write_rx
            &&& next_tx.channel == tx.channel
            &&& next_tx.history.take(tx.history.len() as int) == tx.history
            &&& count <= was.len()
            &&& forall|i: int|
                0 <= i < count ==> {
                    &&& (#[trigger] was[i]).data.len() <= 65535
                    &&& news[2 * i] == Sending::<(Seq<u8>, SocketAddr)>::Asked(true)
                    &&& news[2 * i + 1] matches Sending::Handed((data, addr), outcome) && outcome
                        == SendOutcome::Sent && data == was[i].data && match addr {
                        SocketAddr::V4(v4) => was[i].peer.ip == IpAddr::V4(v4.ip) && was[i].peer.port
                            == v4.port,
                        SocketAddr::V6(v6) => was[i].peer.ip == IpAddr::V6(v6.ip) && was[i].peer.port
                            == v6.port,
                    }
                }
            &&& news.len() % 2 == 0 ==> count == was.len() && now.len() == 0
            &&& news.len() % 2 == 1 ==> (news.last() matches Sending::Asked(room) && {
                &&& !room ==> now == was.skip(count as int)
                &&& room && count < was.len() ==> was[count as int].data.len() > 65535 && now
                    == was.skip(count as int + 1)
                &&& room && count == was.len() ==> now.len() == 0
            })
            &&& net::sockets_view(final(stack).sockets)[handle]->Udp_0.outgoing == net::sockets_view(old(stack).sockets)[handle]->Udp_0.outgoing
            &&& net::sockets_view(final(stack).sockets)[handle]->Udp_0.bound_to == net::sockets_view(old(stack).sockets)[handle]->Udp_0.bound_to
        }),
        net::sockets_view(final(stack).sockets).contains_key(handle),
        final(stack).pending@ == old(stack).pending@,
        final(stack).listeners@ == old(stack).listeners@,
        final(stack).config == old(stack).config,
        final(stack).write_notify == old(stack).write_notify,
        net::iface_view(final(stack).iface) == net::iface_view(old(stack).iface),
{
    let counts = lemma_udp_entry(
        *old(stack),
        *final(stack),
        false,
        old(stats).counts(),
        final(stats).counts(),
        handle,
    );
    data::lemma_packets_told(
        old(stack).socks()[handle]->Udp_0,
        old(stack).udp_states@[handle],
        final(stack).socks()[handle]->Udp_0,
        final(stack).udp_states@[handle],
        counts.0,
        counts.1,
    );
}

/// A round of writing goes to every UDP socket: the packets of its own channel are
/// queued whole, each for its destination, until the channel has nothing more or
/// the socket no more room.
pub proof fn every_udp_socket_is_written<R>(
    stack: &mut Stack<R>,
    stats: &mut TunnelStats,
    handle: SocketHandle,
)
    requires
        call_ensures(Stack::<R>::poll_write_channels, (stack, stats), ()),
        old(stack).wf(),
        old(stack).udp_states@.contains_key(handle),
    ensures
        ({
            let was = net::sockets_view(old(stack).sockets)[handle]->Udp_0;
            let now = net::sockets_view(final(stack).sockets)[handle]->Udp_0;
            let rx = channels::packet_receiver_view(old(stack).udp_states@[handle].write_rx);
            let next_rx = channels::packet_receiver_view(final(stack).udp_states@[handle].write_rx);
            let news = next_rx.history.skip(rx.history.len() as int);
            let dry = news.len() > 0 && news.last() is Missed;
            let count = if dry {
                news.len() - 1
            } else {
                news.len() as int
            };
            &&& next_rx.channel == rx.channel
            &&& next_rx.history.take(rx.history.len() as int) == rx.history
            &&& final(stack).udp_states@[handle].read_tx == old(stack).udp_states@[handle].read_tx
            &&& exists|views: Seq<UdpView>|
                #![trigger views.last()]
                {
                    &&& views.len() == count + 1
                    &&& views[0] == was
                    &&& forall|i: int|
                        0 <= i < count ==> (#[trigger] news[i] matches Taking::Took((data, addr)) && {
                            let (ip, port) = match addr {
                                SocketAddr::V4(v4) => (IpAddr::V4(v4.ip), v4.port),
                                SocketAddr::V6(v6) => (IpAddr::V6(v6.ip), v6.port),
                            };
                            let nowhere = match ip {
                                IpAddr::V4(v4) => v4.bits == 0,
                                IpAddr::V6(v6) => v6.bits == 0,
                            };
                            &&& views[i].takes.contains(0)
                            &&& views[i + 1].incoming == was.incoming
                            &&& views[i + 1].bound_to == was.bound_to
                            &&& views[i + 1].outgoing == if was.bound_to.port == 0 || nowhere
                                || port == 0 || !views[i].takes.contains(data.len()) {
                                views[i].outgoing
                            } else {
                                views[i].outgoing.push(
                                    Packet { peer: Endpoint { ip, port }, data },
                                )
                            }
                        })
                    &&& dry || !views.last().takes.contains(0) || count == u64::MAX
                    &&& dry && news.last()->Missed_0 ==> now.bound_to.port == 0
                        && now.outgoing.len() == 0 && now.incoming.len() == 0
                    &&& !(dry && news.last()->Missed_0) ==> now == views.last()
                }
        }),
        net::sockets_view(final(stack).sockets).contains_key(handle),
        final(stack).pending@ == old(stack).pending@,
        final(stack).listeners@ == old(stack).listeners@,
        final(stack).config == old(stack).config,
        final(stack).write_notify == old(stack).write_notify,
        net::iface_view(final(stack).iface) == net::iface_view(old(stack).iface),
{
    let counts = lemma_udp_entry(
        *old(stack),
        *final(stack),
        true,
        old(stats).counts(),
        final(stats).counts(),
        handle,
    );
    data::lemma_packets_written_told(
        old(stack).socks()[handle]->Udp_0,
        old(stack).udp_states@[handle],
        final(stack).socks()[handle]->Udp_0,
        final(stack).udp_states@[handle],
        counts.0,
        counts.1,
    );
}

/// A socket without channels is neither read nor written, and no socket comes or
/// goes.
pub proof fn other_sockets_are_left_alone<R>(
    stack: &mut Stack<R>,
    stats: &mut TunnelStats,
    handle: SocketHandle,
)
    requires
        call_ensures(Stack::<R>::poll_read_channels, (stack, stats), ()) || call_ensures(
            Stack::<R>::poll_write_channels,
            (stack, stats),
            (),
        ),
    ensures
        net::sockets_view(final(stack).sockets).dom() == net::sockets_view(
            old(stack).sockets,
        ).dom(),
        net::sockets_view(old(stack).sockets).contains_key(handle) && !old(
            stack).tcp_states@.contains_key(handle) && !old(stack).udp_states@.contains_key(handle)
            ==> net::sockets_view(final(stack).sockets)[handle] == net::sockets_view(
            old(stack).sockets,
        )[handle],
        final(stack).tcp_states@.dom() == old(stack).tcp_states@.dom(),
        final(stack).udp_states@.dom() == old(stack).udp_states@.dom(),
        final(stack).pending@ == old(stack).pending@,
        final(stack).listeners@ == old(stack).listeners@,
{
}

/// A command leaves the other sockets that have channels as they are.
proof fn lemma_command_spares<R>(
    before: Stack<R>,
    middle: Stack<R>,
    command: StackCommand<R>,
    port: u16,
    reply: Reply<R>,
    handle: SocketHandle,
)
    requires
        before.wf(),
        before.accepts(command),
        middle.handled(&before, command, port, reply),
    ensures
        before.tcp_states@.contains_key(handle) && !(command is TcpClose
            && command->TcpClose_handle == handle) ==> {
            &&& middle.tcp_states@.contains_key(handle)
            &&& middle.tcp_states@[handle] == before.tcp_states@[handle]
            &&& middle.socks().contains_key(handle)
            &&& middle.socks()[handle] == before.socks()[handle]
        },
        before.udp_states@.contains_key(handle) && !(command is UdpClose
            && command->UdpClose_handle == handle) ==> {
            &&& middle.udp_states@.contains_key(handle)
            &&& middle.udp_states@[handle] == before.udp_states@[handle]
            &&& middle.socks().contains_key(handle)
            &&& middle.socks()[handle] == before.socks()[handle]
        },
{
    if before.tcp_states@.contains_key(handle) {
        assert(is_tcp(before.socks(), handle));
    }
    if before.udp_states@.contains_key(handle) {
        assert(is_udp(before.socks(), handle));
    }
    match command {
        StackCommand::TcpConnect { local_ip, addr, response } => {
            if reply is Nothing {
                let new = choose|new: SocketHandle|
                    #[trigger] middle.connect_handled(
                        &before,
                        local_ip,
                        addr,
                        response,
                        port,
                        ConnectOutcome::Started(new),
                    );
            }
        },
        StackCommand::TcpAccept { handle: listener, response } => {
            match reply {
                Reply::Tcp(completion) => {
                    if completion.result is Ok {
                        let connected = completion.result->Ok_0;
                        let i = choose|i: int|
                            #[trigger] middle.connection_accepted(
                                &before,
                                listener,
                                i,
                                connected,
                            );
                        let list = before.listeners@[listener].listening_handles@;
                        assert(list[i] == connected.handle);
                        assert(!before.tcp_states@.contains_key(list[i]));
                    }
                },
                _ => {},
            }
        },
        StackCommand::TcpListenerClose { handle: listener } => {
            if before.listeners@.contains_key(listener) {
                let list = before.listeners@[listener].listening_handles@;
                assert(list.take(list.len() as int) =~= list);
                assert(middle.socks().dom() == before.socks().dom());
                if before.socks().contains_key(handle) {
                    assert(before.socks().dom().contains(handle));
                    assert(middle.socks().contains_key(handle));
                    if list.contains(handle) {
                        let i = choose|i: int| 0 <= i < list.len() && list[i] == handle;
                        assert(is_tcp(before.socks(), list[i]));
                        assert(!before.tcp_states@.contains_key(list[i]));
                    }
                }
            }
        },
        _ => {},
    }
}

/// A round begins with writing: what was written to a TCP socket's channel goes to
/// the socket, byte by byte and in order, whether something was written, time has
/// passed or a command was carried out, unless that was to close the socket.
pub proof fn rounds_begin_with_writing<R>(
    stack: &mut Stack<R>,
    wakeup: Wakeup<R>,
    ports: &mut EphemeralPorts,
    stats: &mut TunnelStats,
    reply: Option<Reply<R>>,
    handle: SocketHandle,
)
    requires
        old(stack).wf(),
        wakeup matches Wakeup::Command(command) ==> old(stack).accepts(command),
        call_ensures(Stack::<R>::begin_round, (stack, wakeup, ports, stats), reply),
        !(wakeup is Disconnected),
        !(wakeup is Command && wakeup->Command_0 is TcpClose
            && wakeup->Command_0->TcpClose_handle == handle),
        old(stack).tcp_states@.contains_key(handle),
    ensures
        ({
            let was = net::sockets_view(old(stack).sockets)[handle]->Tcp_0;
            let now = net::sockets_view(final(stack).sockets)[handle]->Tcp_0;
            let open = was.state == TcpState::Established || was.state == TcpState::CloseWait;
            let rx = channels::receiver_view(old(stack).tcp_states@[handle].write_rx);
            let next_rx = channels::receiver_view(final(stack).tcp_states@[handle].write_rx);
            let news = next_rx.history.skip(rx.history.len() as int);
            let dry = news.len() > 0 && news.last() is Missed;
            let count = if dry {
                news.len() - 1
            } else {
                news.len() as int
            };
            let chunks = Seq::new(count as nat, |i: int| news[i]->Took_0);
            let pending = match old(stack).tcp_states@[handle].pending_write {
                Some(data) => data@,
                None => Seq::empty(),
            };
            let left = match final(stack).tcp_states@[handle].pending_write {
                Some(data) => data@,
                None => Seq::empty(),
            };
            &&& next_rx.channel == rx.channel
            &&& next_rx.history.take(rx.history.len() as int) == rx.history
            &&& final(stack).tcp_states@[handle].read_tx == old(stack).tcp_states@[handle].read_tx
            &&& forall|i: int| 0 <= i < count ==> #[trigger] news[i] is Took
            &&& now.outgoing + left == was.outgoing + pending + chunks.flatten()
            &&& was.outgoing.len() <= was.send_capacity ==> now.outgoing.len() <= was.send_capacity
            &&& dry || !open || now.outgoing.len() >= was.send_capacity || count == u64::MAX
            &&& final(stack).tcp_states@[handle].pending_write is Some && open ==> now.outgoing.len()
                >= was.send_capacity
            &&& !open ==> news.len() == 0 && now == was
            &&& dry && news.last()->Missed_0 ==> {
                &&& was.state == TcpState::Established ==> now.state == TcpState::FinWait1
                &&& was.state == TcpState::CloseWait ==> now.state == TcpState::LastAck
            }
            &&& !(dry && news.last()->Missed_0) ==> now.state == was.state
            &&& now.tuple == was.tuple
            &&& now.incoming == was.incoming
            &&& now.send_capacity == was.send_capacity
        }),
        final(stack).tcp_states@.contains_key(handle),
{
    let middle = choose|middle: Stack<R>|
        #[trigger] final(stack).round_begun(
            old(stack),
            wakeup,
            old(ports).next(),
            middle,
            reply,
            old(stats).counts(),
            final(stats).counts(),
        );
    assert(is_tcp(old(stack).socks(), handle));
    if wakeup is Command {
        lemma_command_spares(
            *old(stack),
            middle,
            wakeup->Command_0,
            old(ports).next(),
            reply->0,
            handle,
        );
    }
    assert(final(stack).polled(&middle, true, old(stats).counts(), final(stats).counts()));
    assert(middle.tcp_states@.dom().contains(handle));
    data::lemma_written_told(
        old(stack).socks()[handle]->Tcp_0,
        old(stack).tcp_states@[handle],
        final(stack).socks()[handle]->Tcp_0,
        final(stack).tcp_states@[handle],
    );
}

/// The same of UDP sockets: the packets of their channels are queued whole, each for
/// its destination.
pub proof fn rounds_begin_with_writing_packets<R>(
    stack: &mut Stack<R>,
    wakeup: Wakeup<R>,
    ports: &mut EphemeralPorts,
    stats: &mut TunnelStats,
    reply: Option<Reply<R>>,
    handle: SocketHandle,
)
    requires
        old(stack).wf(),
        wakeup matches Wakeup::Command(command) ==> old(stack).accepts(command),
        call_ensures(Stack::<R>::begin_round, (stack, wakeup, ports, stats), reply),
        !(wakeup is Disconnected),
        !(wakeup is Command && wakeup->Command_0 is UdpClose
            && wakeup->Command_0->UdpClose_handle == handle),
        old(stack).udp_states@.contains_key(handle),
    ensures
        ({
            let was = net::sockets_view(old(stack).sockets)[handle]->Udp_0;
            let now = net::sockets_view(final(stack).sockets)[handle]->Udp_0;
            let rx = channels::packet_receiver_view(old(stack).udp_states@[handle].write_rx);
            let next_rx = channels::packet_receiver_view(final(stack).udp_states@[handle].write_rx);
            let news = next_rx.history.skip(rx.history.len() as int);
            let dry = news.len() > 0 && news.last() is Missed;
            let count = if dry {
                news.len() - 1
            } else {
                news.len() as int
            };
            &&& next_rx.channel == rx.channel
            &&& next_rx.history.take(rx.history.len() as int) == rx.history
            &&& final(stack).udp_states@[handle].read_tx == old(stack).udp_states@[handle].read_tx
            &&& exists|views: Seq<UdpView>|
                #![trigger views.last()]
                {
                    &&& views.len() == count + 1
                    &&& views[0] == was
                    &&& forall|i: int|
                        0 <= i < count ==> (#[trigger] news[i] matches Taking::Took((data, addr)) && {
                            let (ip, port) = match addr {
                                SocketAddr::V4(v4) => (IpAddr::V4(v4.ip), v4.port),
                                SocketAddr::V6(v6) => (IpAddr::V6(v6.ip), v6.port),
                            };
                            let nowhere = match ip {
                                IpAddr::V4(v4) => v4.bits == 0,
                                IpAddr::V6(v6) => v6.bits == 0,
                            };
                            &&& views[i].takes.contains(0)
                            &&& views[i + 1].incoming == was.incoming
                            &&& views[i + 1].bound_to == was.bound_to
                            &&& views[i + 1].outgoing == if was.bound_to.port == 0 || nowhere
                                || port == 0 || !views[i].takes.contains(data.len()) {
                                views[i].outgoing
                            } else {
                                views[i].outgoing.push(
                                    Packet { peer: Endpoint { ip, port }, data },
                                )
                            }
                        })
                    &&& dry || !views.last().takes.contains(0) || count == u64::MAX
                    &&& dry && news.last()->Missed_0 ==> now.bound_to.port == 0
                        && now.outgoing.len() == 0 && now.incoming.len() == 0
                    &&& !(dry && news.last()->Missed_0) ==> now == views.last()
                }
        }),
        final(stack).udp_states@.contains_key(handle),
{
    let middle = choose|middle: Stack<R>|
        #[trigger] final(stack).round_begun(
            old(stack),
            wakeup,
            old(ports).next(),
            middle,
            reply,
            old(stats).counts(),
            final(stats).counts(),
        );
    lemma_begin_packets_told(
        *old(stack),
        wakeup,
        old(ports).next(),
        middle,
        reply,
        old(stats).counts(),
        final(stats).counts(),
        *final(stack),
        handle,
    );
}

proof fn lemma_begin_packets_told<R>(
    before: Stack<R>,
    wakeup: Wakeup<R>,
    port: u16,
    middle: Stack<R>,
    reply: Option<Reply<R>>,
    from: TunnelStatsSnapshot,
    to: TunnelStatsSnapshot,
    after: Stack<R>,
    handle: SocketHandle,
)
    requires
        before.wf(),
        after.wf(),
        wakeup matches Wakeup::Command(command) ==> before.accepts(command),
        after.round_begun(&before, wakeup, port, middle, reply, from, to),
        !(wakeup is Disconnected),
        !(wakeup is Command && wakeup->Command_0 is UdpClose
            && wakeup->Command_0->UdpClose_handle == handle),
        before.udp_states@.contains_key(handle),
    ensures
        ({
            let was = before.socks()[handle]->Udp_0;
            let now = after.socks()[handle]->Udp_0;
            let rx = channels::packet_receiver_view(before.udp_states@[handle].write_rx);
            let next_rx = channels::packet_receiver_view(after.udp_states@[handle].write_rx);
            let news = next_rx.history.skip(rx.history.len() as int);
            let dry = news.len() > 0 && news.last() is Missed;
            let count = if dry {
                news.len() - 1
            } else {
                news.len() as int
            };
            &&& next_rx.channel == rx.channel
            &&& next_rx.history.take(rx.history.len() as int) == rx.history
            &&& after.udp_states@[handle].read_tx == before.udp_states@[handle].read_tx
            &&& exists|views: Seq<UdpView>|
                #![trigger views.last()]
                {
                    &&& views.len() == count + 1
                    &&& views[0] == was
                    &&& forall|i: int|
                        0 <= i < count ==> (#[trigger] news[i] matches Taking::Took((data, addr)) && {
                            let (ip, port) = match addr {
                                SocketAddr::V4(v4) => (IpAddr::V4(v4.ip), v4.port),
                                SocketAddr::V6(v6) => (IpAddr::V6(v6.ip), v6.port),
                            };
                            let nowhere = match ip {
                                IpAddr::V4(v4) => v4.bits == 0,
                                IpAddr::V6(v6) => v6.bits == 0,
                            };
                            &&& views[i].takes.contains(0)
                            &&& views[i + 1].incoming == was.incoming
                            &&& views[i + 1].bound_to == was.bound_to
                            &&& views[i + 1].outgoing == if was.bound_to.port == 0 || nowhere
                                || port == 0 || !views[i].takes.contains(data.len()) {
                                views[i].outgoing
                            } else {
                                views[i].outgoing.push(
                                    Packet { peer: Endpoint { ip, port }, data },
                                )
                            }
                        })
                    &&& dry || !views.last().takes.contains(0) || count == u64::MAX
                    &&& dry && news.last()->Missed_0 ==> now.bound_to.port == 0
                        && now.outgoing.len() == 0 && now.incoming.len() == 0
                    &&& !(dry && news.last()->Missed_0) ==> now == views.last()
                }
        }),
        after.udp_states@.contains_key(handle),
{
    let counts = lemma_begin_packets(
        before,
        wakeup,
        port,
        middle,
        reply,
        from,
        to,
        after,
        handle,
    );
    data::lemma_packets_written_told(
        before.socks()[handle]->Udp_0,
        before.udp_states@[handle],
        after.socks()[handle]->Udp_0,
        after.udp_states@[handle],
        counts.0,
        counts.1,
    );
}

proof fn lemma_begin_packets<R>(
    before: Stack<R>,
    wakeup: Wakeup<R>,
    port: u16,
    middle: Stack<R>,
    reply: Option<Reply<R>>,
    from: TunnelStatsSnapshot,
    to: TunnelStatsSnapshot,
    after: Stack<R>,
    handle: SocketHandle,
) -> (counts: (TunnelStatsSnapshot, TunnelStatsSnapshot))
    requires
        before.wf(),
        after.wf(),
        wakeup matches Wakeup::Command(command) ==> before.accepts(command),
        after.round_begun(&before, wakeup, port, middle, reply, from, to),
        !(wakeup is Disconnected),
        !(wakeup is Command && wakeup->Command_0 is UdpClose
            && wakeup->Command_0->UdpClose_handle == handle),
        before.udp_states@.contains_key(handle),
    ensures
        after.udp_states@.contains_key(handle),
        after.socks().contains_key(handle),
        udp_moved(
            true,
            before.socks()[handle],
            before.udp_states@[handle],
            after.socks()[handle],
            after.udp_states@[handle],
            counts.0,
            counts.1,
        ),
{
    if wakeup is Command {
        lemma_command_spares(before, middle, wakeup->Command_0, port, reply->0, handle);
    }
    lemma_udp_entry(middle, after, true, from, to, handle)
}

/// Where nothing was asked for, nothing is answered, and nobody's wait is over.
pub proof fn rounds_without_commands_answer_nothing<R>(
    stack: &mut Stack<R>,
    wakeup: Wakeup<R>,
    ports: &mut EphemeralPorts,
    stats: &mut TunnelStats,
    reply: Option<Reply<R>>,
)
    requires
        call_ensures(Stack::<R>::begin_round, (stack, wakeup, ports, stats), reply),
        wakeup is Written || wakeup is Timeout,
    ensures
        reply matches Some(Reply::Nothing),
        final(ports).next() == old(ports).next(),
        final(stack).pending@ == old(stack).pending@,
        final(stack).listeners@ == old(stack).listeners@,
        final(stack).tcp_states@.dom() == old(stack).tcp_states@.dom(),
        final(stack).udp_states@.dom() == old(stack).udp_states@.dom(),
        final(stack).config == old(stack).config,
        net::iface_view(final(stack).iface) == net::iface_view(old(stack).iface),
{
}

/// Where nobody can give commands any more, the stack is at its end, and only
/// there. It then stays as it is.
pub proof fn rounds_end_with_the_commands<R>(
    stack: &mut Stack<R>,
    wakeup: Wakeup<R>,
    ports: &mut EphemeralPorts,
    stats: &mut TunnelStats,
    reply: Option<Reply<R>>,
)
    requires
        call_ensures(Stack::<R>::begin_round, (stack, wakeup, ports, stats), reply),
    ensures
        reply is None <==> wakeup is Disconnected,
        wakeup is Disconnected ==> *final(stack) == *old(stack) && final(ports).next() == old(
            ports).next() && final(stats).counts() == old(stats).counts(),
{
}

/// A command is carried out at the start of a round, and is answered as its kind
/// says.
pub proof fn rounds_carry_out_commands<R>(
    stack: &mut Stack<R>,
    command: StackCommand<R>,
    ports: &mut EphemeralPorts,
    stats: &mut TunnelStats,
    reply: Reply<R>,
)
    requires
        old(stack).wf(),
        call_ensures(
            Stack::<R>::begin_round,
            (stack, Wakeup::Command(command), ports, stats),
            Some(reply),
        ),
    ensures
        ({
            let was = net::sockets_view(old(stack).sockets);
            let now = net::sockets_view(final(stack).sockets);
            let addrs_were = net::iface_view(old(stack).iface).addrs;
            let addrs = net::iface_view(final(stack).iface).addrs;
            let next = if old(ports).next() == 65535 {
                49152
            } else {
                old(ports).next() + 1
            };
            &&& final(stack).config == old(stack).config
            &&& final(stack).write_notify == old(stack).write_notify
            &&& !(command is TcpConnect || command is UdpBind) ==> final(ports).next() == old(
                ports).next()
            &&& !(command is AddIp || command is RemoveIp) ==> addrs == addrs_were
            &&& !(command is TcpConnect || command is TcpAccept || command is TcpListenerClose)
                ==> final(stack).pending@ == old(stack).pending@
            &&& !(command is TcpListen || command is TcpAccept || command is TcpListenerClose)
                ==> final(stack).listeners@ == old(stack).listeners@
            &&& !(command is UdpBind || command is UdpClose) ==> final(stack).udp_states@.dom()
                == old(stack).udp_states@.dom()
            &&& match command {
                StackCommand::TcpConnect { local_ip, addr, response } => {
                    &&& final(ports).next() == next
                    &&& match reply {
                        Reply::Nothing => exists|handle: SocketHandle|
                            {
                                &&& !was.contains_key(handle)
                                &&& final(stack).pending@.dom() == old(stack).pending@.dom().insert(
                                    handle,
                                )
                                &&& #[trigger] final(stack).pending@[handle] matches PendingOp::TcpConnect {
                                    peer_addr,
                                    response: waiting,
                                    ..
                                } && peer_addr == addr && waiting == response
                                &&& now[handle] matches SocketView::Tcp(socket)
                                    && socket.tuple matches Some(tuple) && tuple.local.port == old(
                                    ports).next() && match addr {
                                    SocketAddr::V4(v4) => tuple.remote.ip == IpAddr::V4(v4.ip)
                                        && tuple.remote.port == v4.port,
                                    SocketAddr::V6(v6) => tuple.remote.ip == IpAddr::V6(v6.ip)
                                        && tuple.remote.port == v6.port,
                                }
                            },
                        Reply::Tcp(completion) => {
                            &&& completion.response == response
                            &&& completion.result is Err
                            &&& final(stack).pending@ == old(stack).pending@
                        },
                        _ => false,
                    }
                },
                StackCommand::TcpListen { addr, backlog } => {
                    reply matches Reply::Listening(result) && {
                        &&& result matches Ok(listening) ==> {
                            &&& listening.addr == addr
                            &&& !was.contains_key(listening.handle)
                            &&& final(stack).listeners@.dom() == old(stack).listeners@.dom().insert(
                                listening.handle,
                            )
                            &&& final(stack).listeners@[listening.handle].addr == addr
                        }
                        &&& result is Err ==> final(stack).listeners@ == old(stack).listeners@
                    }
                },
                StackCommand::TcpAccept { handle, response } => match reply {
                    Reply::Nothing => final(stack).pending@ == old(stack).pending@.insert(
                        handle,
                        PendingOp::TcpAccept { response },
                    ),
                    Reply::Tcp(completion) => {
                        &&& completion.response == response
                        &&& completion.result is Ok <==> old(stack).listeners@.contains_key(handle)
                        &&& final(stack).pending@ == old(stack).pending@
                    },
                    _ => false,
                },
                StackCommand::TcpListenerClose { handle } => {
                    &&& reply is Nothing
                    &&& final(stack).listeners@ == old(stack).listeners@.remove(handle)
                    &&& final(stack).pending@ == old(stack).pending@.remove(handle)
                },
                StackCommand::TcpClose { handle } => {
                    &&& reply is Nothing
                    &&& final(stack).tcp_states@.dom() == old(stack).tcp_states@.dom().remove(
                        handle,
                    )
                },
                StackCommand::UdpBind { addr } => {
                    reply matches Reply::Bound(Ok(bound)) && {
                        &&& !was.contains_key(bound.handle)
                        &&& final(stack).udp_states@.dom() == old(stack).udp_states@.dom().insert(
                            bound.handle,
                        )
                        &&& match (addr, bound.addr) {
                            (SocketAddr::V4(asked), SocketAddr::V4(got)) => {
                                &&& got.ip == asked.ip
                                &&& asked.port != 0 ==> got.port == asked.port
                                &&& asked.port == 0 ==> got.port == old(ports).next()
                            },
                            (SocketAddr::V6(asked), SocketAddr::V6(got)) => {
                                &&& got.ip == asked.ip
                                &&& asked.port != 0 ==> got.port == asked.port
                                &&& asked.port == 0 ==> got.port == old(ports).next()
                            },
                            _ => false,
                        }
                    }
                },
                StackCommand::UdpClose { handle } => {
                    &&& reply is Nothing
                    &&& final(stack).udp_states@.dom() == old(stack).udp_states@.dom().remove(
                        handle,
                    )
                },
                StackCommand::AddIp { ip, prefix_len } => {
                    reply matches Reply::Ip(result) && {
                        &&& result is Ok <==> addrs.contains((ip, prefix_len))
                        &&& addrs == addrs_were || addrs == addrs_were.push((ip, prefix_len))
                    }
                },
                StackCommand::RemoveIp { ip } => {
                    &&& reply matches Reply::Ip(Ok(()))
                    &&& forall|other: IpAddr, len: u8| #[trigger]
                        addrs.contains((other, len)) <==> other != ip && addrs_were.contains(
                            (other, len),
                        )
                },
                StackCommand::GetIps => reply matches Reply::Ips(ips) && ips@ == addrs_were,
            }
        }),
{
    let addrs_were = net::iface_view(old(stack).iface).addrs;
    let addrs = net::iface_view(final(stack).iface).addrs;
    let middle = choose|middle: Stack<R>|
        #[trigger] final(stack).round_begun(
            old(stack),
            Wakeup::Command(command),
            old(ports).next(),
            middle,
            Some(reply),
            old(stats).counts(),
            final(stats).counts(),
        );
    assert(middle.handled(old(stack), command, old(ports).next(), reply));
    match command {
        StackCommand::TcpConnect { local_ip, addr, response } => {
            if reply is Nothing {
                let handle = choose|handle: SocketHandle|
                    #[trigger] middle.connect_handled(
                        old(stack),
                        local_ip,
                        addr,
                        response,
                        old(ports).next(),
                        ConnectOutcome::Started(handle),
                    );
                assert(final(stack).pending@.dom() =~= old(stack).pending@.dom().insert(handle));
                assert(final(stack).pending@[handle] is TcpConnect);
                assert(middle.tcp_states@.contains_key(handle));
                data::moving_data_keeps_the_ends(
                    middle.socks()[handle]->Tcp_0,
                    middle.tcp_states@[handle],
                    final(stack).socks()[handle]->Tcp_0,
                    final(stack).tcp_states@[handle],
                );
            }
        },
        StackCommand::TcpListen { addr, backlog } => {
            match reply->Listening_0 {
                Ok(listening) => {
                    let handles = middle.listeners@[listening.handle].listening_handles@;
                    assert(handles[0] == listening.handle);
                    assert(final(stack).listeners@.dom() =~= old(stack).listeners@.dom().insert(
                        listening.handle,
                    ));
                },
                Err(_) => {},
            }
        },
        StackCommand::TcpAccept { handle, response } => {},
        StackCommand::TcpClose { handle } => {
            assert(final(stack).tcp_states@.dom() =~= old(stack).tcp_states@.dom().remove(handle));
        },
        StackCommand::UdpBind { .. } => {
            let bound = reply->Bound_0->Ok_0;
            assert(final(stack).udp_states@.dom() =~= old(stack).udp_states@.dom().insert(
                bound.handle,
            ));
        },
        StackCommand::UdpClose { handle } => {
            assert(final(stack).udp_states@.dom() =~= old(stack).udp_states@.dom().remove(handle));
        },
        StackCommand::AddIp { ip, prefix_len } => {
            if addrs == addrs_were.push((ip, prefix_len)) {
                assert(addrs[addrs_were.len() as int] == (ip, prefix_len));
            }
        },
        StackCommand::RemoveIp { ip } => {
            super::promises::lemma_filter_keeps(addrs_were, ip);
        },
        _ => {},
    }
}

/// What the end of a round leaves of a socket that has channels is what reading
/// has left.
proof fn lemma_round_reads<R>(
    before: Stack<R>,
    changed: bool,
    ipc_dead: bool,
    read: Stack<R>,
    told: Stack<R>,
    split: int,
    completions: Seq<Completion<R>>,
    from: TunnelStatsSnapshot,
    to: TunnelStatsSnapshot,
    after: Stack<R>,
    handle: SocketHandle,
)
    requires
        after.round_finished(
            &before,
            changed,
            ipc_dead,
            read,
            told,
            split,
            completions,
            from,
            to,
        ),
        read.socks().contains_key(handle),
    ensures
        after.socks().contains_key(handle),
        after.socks()[handle] == read.socks()[handle],
        after.udp_states@ == read.udp_states@,
        read.tcp_states@.contains_key(handle) && after.tcp_states@.contains_key(handle)
            ==> after.tcp_states@[handle] == read.tcp_states@[handle],
{
    if changed {
        let first = completions.take(split);
        let (keys, steps, answers) = choose|
            keys: Seq<SocketHandle>,
            steps: Seq<Stack<R>>,
            answers: Seq<Option<Completion<R>>>,
        |
            #![trigger dealt_with(read, told, keys, steps, answers)]
            {
                &&& keys.no_duplicates()
                &&& keys.to_set() == read.pending@.dom()
                &&& dealt_with(read, told, keys, steps, answers)
                &&& first == given(answers)
            };
        lemma_dealt_with(read, told, keys, steps, answers, keys.len() as int);
        assert(steps.last() == steps[keys.len() as int]);
    }
}

/// A round ends with reading: what a TCP socket has received goes to its channel,
/// byte by byte and in order, whether or not somebody's wait is over or the proxy is
/// gone.
pub proof fn rounds_end_with_reading<R>(
    stack: &mut Stack<R>,
    changed: bool,
    ipc_dead: bool,
    stats: &mut TunnelStats,
    outcome: (Vec<Completion<R>>, bool),
    handle: SocketHandle,
)
    requires
        old(stack).wf(),
        call_ensures(Stack::<R>::finish_round, (stack, changed, ipc_dead, stats), outcome),
        old(stack).tcp_states@.contains_key(handle),
        final(stack).tcp_states@.contains_key(handle),
    ensures
        ({
            let was = net::sockets_view(old(stack).sockets)[handle]->Tcp_0;
            let now = net::sockets_view(final(stack).sockets)[handle]->Tcp_0;
            let over = was.incoming.len() == 0 && (was.state == TcpState::CloseWait || was.state
                == TcpState::Closing || was.state == TcpState::LastAck || was.state
                == TcpState::TimeWait || was.state == TcpState::Closed);
            let tx = channels::sender_view(old(stack).tcp_states@[handle].read_tx->0);
            let next_tx = channels::sender_view(final(stack).tcp_states@[handle].read_tx->0);
            let news = next_tx.history.skip(tx.history.len() as int);
            let chunks = Seq::new(news.len() / 2, |i: int| news[2 * i + 1]->Handed_0);
            &&& final(stack).tcp_states@[handle].write_rx == old(stack).tcp_states@[handle].write_rx
            &&& final(stack).tcp_states@[handle].pending_write == old(stack).tcp_states@[handle].pending_write
            &&& now.state == was.state
            &&& now.tuple == was.tuple
            &&& now.outgoing == was.outgoing
            &&& final(stack).tcp_states@[handle].read_tx is Some <==> old(stack).tcp_states@[handle].read_tx is Some && !over
            &&& final(stack).tcp_states@[handle].read_tx is None ==> now.incoming == was.incoming
            &&& final(stack).tcp_states@[handle].read_tx is Some ==> {
                &&& next_tx.channel == tx.channel
                &&& next_tx.history.take(tx.history.len() as int) == tx.history
                &&& forall|i: int|
                    0 <= i < chunks.len() ==> {
                        &&& news[2 * i] == Sending::<Seq<u8>>::Asked(true)
                        &&& news[2 * i + 1] == Sending::Handed(
                            #[trigger] chunks[i],
                            SendOutcome::Sent,
                        )
                        &&& 0 < chunks[i].len() <= 65535
                    }
                &&& chunks.flatten() + now.incoming == was.incoming
                &&& now.incoming.len() == 0 ==> news.len() == 2 * chunks.len()
                &&& now.incoming.len() > 0 ==> news.len() == 2 * chunks.len() + 1 && news.last()
                    == Sending::<Seq<u8>>::Asked(false)
                &&& 0 < was.incoming.len() <= 65535 && chunks.len() > 0 ==> chunks.len() == 1
            }
        }),
        outcome.1 == ipc_dead,
{
    let (read, told, split) = choose|read: Stack<R>, told: Stack<R>, split: int|
        #[trigger] final(stack).round_finished(
            old(stack),
            changed,
            ipc_dead,
            read,
            told,
            split,
            outcome.0@,
            old(stats).counts(),
            final(stats).counts(),
        );
    assert(read.polled(old(stack), false, old(stats).counts(), final(stats).counts()));
    assert(is_tcp(old(stack).socks(), handle));
    assert(old(stack).socks().dom().contains(handle));
    assert(old(stack).tcp_states@.dom().contains(handle));
    lemma_round_reads(
        *old(stack),
        changed,
        ipc_dead,
        read,
        told,
        split,
        outcome.0@,
        old(stats).counts(),
        final(stats).counts(),
        *final(stack),
        handle,
    );
    data::lemma_read_told(
        old(stack).socks()[handle]->Tcp_0,
        old(stack).tcp_states@[handle],
        read.socks()[handle]->Tcp_0,
        read.tcp_states@[handle],
    );
}

/// The same of UDP sockets: their packets go to their channels whole and in order,
/// whatever their size up to 65535 bytes.
pub proof fn rounds_end_with_reading_packets<R>(
    stack: &mut Stack<R>,
    changed: bool,
    ipc_dead: bool,
    stats: &mut TunnelStats,
    outcome: (Vec<Completion<R>>, bool),
    handle: SocketHandle,
)
    requires
        old(stack).wf(),
        call_ensures(Stack::<R>::finish_round, (stack, changed, ipc_dead, stats), outcome),
        old(stack).udp_states@.contains_key(handle),
    ensures
        ({
            let was = net::sockets_view(old(stack).sockets)[handle]->Udp_0.incoming;
            let now = net::sockets_view(final(stack).sockets)[handle]->Udp_0.incoming;
            let tx = channels::packet_sender_view(old(stack).udp_states@[handle].read_tx->0);
            let next_tx = channels::packet_sender_view(final(stack).udp_states@[handle].read_tx->0);
            let news = next_tx.history.skip(tx.history.len() as int);
            let count = news.len() / 2;
            &&& final(stack).udp_states@[handle].read_tx is Some
            &&& final(stack).udp_states@[handle].write_rx == old(stack).udp_states@[handle].write_rx
            &&& next_tx.channel == tx.channel
            &&& next_tx.history.take(tx.history.len() as int) == tx.history
            &&& count <= was.len()
            &&& forall|i: int|
                0 <= i < count ==> {
                    &&& (#[trigger] was[i]).data.len() <= 65535
                    &&& news[2 * i] == Sending::<(Seq<u8>, SocketAddr)>::Asked(true)
                    &&& news[2 * i + 1] matches Sending::Handed((data, addr), outcome) && outcome
                        == SendOutcome::Sent && data == was[i].data && match addr {
                        SocketAddr::V4(v4) => was[i].peer.ip == IpAddr::V4(v4.ip) && was[i].peer.port
                            == v4.port,
                        SocketAddr::V6(v6) => was[i].peer.ip == IpAddr::V6(v6.ip) && was[i].peer.port
                            == v6.port,
                    }
                }
            &&& news.len() % 2 == 0 ==> count == was.len() && now.len() == 0
            &&& news.len() % 2 == 1 ==> (news.last() matches Sending::Asked(room) && {
                &&& !room ==> now == was.skip(count as int)
                &&& room && count < was.len() ==> was[count as int].data.len() > 65535 && now
                    == was.skip(count as int + 1)
                &&& room && count == was.len() ==> now.len() == 0
            })
            &&& net::sockets_view(final(stack).sockets)[handle]->Udp_0.outgoing == net::sockets_view(old(stack).sockets)[handle]->Udp_0.outgoing
            &&& net::sockets_view(final(stack).sockets)[handle]->Udp_0.bound_to == net::sockets_view(old(stack).sockets)[handle]->Udp_0.bound_to
        }),
        final(stack).udp_states@.contains_key(handle),
{
    let (read, told, split) = choose|read: Stack<R>, told: Stack<R>, split: int|
        #[trigger] final(stack).round_finished(
            old(stack),
            changed,
            ipc_dead,
            read,
            told,
            split,
            outcome.0@,
            old(stats).counts(),
            final(stats).counts(),
        );
    assert(read.polled(old(stack), false, old(stats).counts(), final(stats).counts()));
    let counts = lemma_udp_entry(
        *old(stack),
        read,
        false,
        old(stats).counts(),
        final(stats).counts(),
        handle,
    );
    lemma_round_reads(
        *old(stack),
        changed,
        ipc_dead,
        read,
        told,
        split,
        outcome.0@,
        old(stats).counts(),
        final(stats).counts(),
        *final(stack),
        handle,
    );
    data::lemma_packets_told(
        old(stack).socks()[handle]->Udp_0,
        old(stack).udp_states@[handle],
        read.socks()[handle]->Udp_0,
        read.udp_states@[handle],
        counts.0,
        counts.1,
    );
}

/// Where no socket has changed its state and the proxy is there, nobody is told
/// anything, and everybody goes on waiting.
pub proof fn quiet_rounds_tell_nobody<R>(
    stack: &mut Stack<R>,
    stats: &mut TunnelStats,
    outcome: (Vec<Completion<R>>, bool),
)
    requires
        call_ensures(Stack::<R>::finish_round, (stack, false, false, stats), outcome),
    ensures
        outcome.0@.len() == 0,
        !outcome.1,
        final(stack).pending@ == old(stack).pending@,
        final(stack).listeners@ == old(stack).listeners@,
        final(stack).tcp_states@.dom() == old(stack).tcp_states@.dom(),
{
}

/// At the end of a round everybody whose wait is over is told, once: where a socket
/// has changed its state, whoever waits for a connection that came about or failed,
/// and where the proxy is gone, all others. Nobody else is told anything, and who is
/// told does not wait any more.
pub proof fn rounds_tell_those_who_waited<R>(
    stack: &mut Stack<R>,
    changed: bool,
    ipc_dead: bool,
    stats: &mut TunnelStats,
    outcome: (Vec<Completion<R>>, bool),
    handle: SocketHandle,
)
    requires
        old(stack).wf(),
        call_ensures(Stack::<R>::finish_round, (stack, changed, ipc_dead, stats), outcome),
        old(stack).pending@.contains_key(handle),
        old(stack).pending@[handle] is TcpConnect,
    ensures
        ({
            let state = net::sockets_view(old(stack).sockets)[handle]->Tcp_0.state;
            let decided = changed && (state == TcpState::Established || state == TcpState::Closed
                || state == TcpState::TimeWait);
            let told = exists|i: int|
                0 <= i < outcome.0@.len() && (#[trigger] outcome.0@[i]).handle == Some(handle);
            &&& outcome.1 == ipc_dead
            &&& told <==> decided || ipc_dead
            &&& final(stack).pending@.contains_key(handle) <==> !told
            &&& forall|i: int|
                0 <= i < outcome.0@.len() && (#[trigger] outcome.0@[i]).handle == Some(handle) ==> {
                    &&& outcome.0@[i].response == old(stack).pending@[handle]->TcpConnect_response
                    &&& outcome.0@[i].result is Ok <==> changed && state == TcpState::Established
                    &&& outcome.0@[i].result matches Ok(connected) ==> {
                        &&& connected.handle == handle
                        &&& connected.peer == old(stack).pending@[handle]->TcpConnect_peer_addr
                        &&& connected.local == old(stack).pending@[handle]->TcpConnect_local_addr
                        &&& connected.channels == old(stack).pending@[handle]->TcpConnect_channels
                    }
                    &&& outcome.0@[i].result matches Err(error) ==> error.kind == if decided {
                        ErrorKind::ConnectionRefused
                    } else {
                        ErrorKind::ConnectionAborted
                    }
                }
        }),
{
    let completions = outcome.0@;
    let (read, told, split) = choose|read: Stack<R>, told: Stack<R>, split: int|
        #[trigger] final(stack).round_finished(
            old(stack),
            changed,
            ipc_dead,
            read,
            told,
            split,
            completions,
            old(stats).counts(),
            final(stats).counts(),
        );
    let first = completions.take(split);
    let second = completions.skip(split);
    let before = *old(stack);
    assert(is_tcp(before.socks(), handle));
    assert(before.socks().contains_key(handle));
    assert(before.socks().dom().contains(handle));
    assert(read.polled(&before, false, old(stats).counts(), final(stats).counts()));
    if before.tcp_states@.contains_key(handle) {
        data::lemma_read_told(
            before.socks()[handle]->Tcp_0,
            before.tcp_states@[handle],
            read.socks()[handle]->Tcp_0,
            read.tcp_states@[handle],
        );
    } else {
        assert(!before.udp_states@.contains_key(handle)) by {
            if before.udp_states@.contains_key(handle) {
                assert(is_udp(before.socks(), handle));
            }
        }
    }
    assert(read.socks()[handle]->Tcp_0.state == before.socks()[handle]->Tcp_0.state);
    assert(read.pending@[handle] == before.pending@[handle]);
    if changed {
        lemma_connect_told(read, told, first, handle);
    } else {
        assert(first.len() == 0);
    }
    if ipc_dead {
        assert(!final(stack).pending@.dom().contains(handle));
        assert forall|i: int| 0 <= i < second.len() implies told.pending@.contains_key(
            (#[trigger] second[i]).handle->0,
        ) by {}
        if told.pending@.contains_key(handle) {
            assert(told.pending@.contains_key(handle) && !final(stack).pending@.contains_key(handle));
            let i = choose|i: int|
                0 <= i < second.len() && (#[trigger] second[i]).handle == Some(handle);
            assert(completions[i + split] == second[i]);
            assert(told.pending@[handle] == before.pending@[handle]);
        }
    } else {
        assert(completions.take(split) =~= completions);
    }
    assert forall|i: int|
        0 <= i < completions.len() && (#[trigger] completions[i]).handle == Some(
            handle,
        ) implies if i < split {
        completions[i] == first[i]
    } else {
        completions[i] == second[i - split] && told.pending@.contains_key(handle)
    } by {
        if i >= split {
            assert(completions[i] == second[i - split]);
            assert(told.pending@.contains_key(second[i - split].handle->0));
        }
    }
    if exists|i: int| 0 <= i < first.len() && (#[trigger] first[i]).handle == Some(handle) {
        let i = choose|i: int| 0 <= i < first.len() && (#[trigger] first[i]).handle == Some(handle);
        assert(completions[i] == first[i]);
    }
}

/// What whoever waits for a connection is told when those who wait are dealt with.
proof fn lemma_connect_told<R>(
    before: Stack<R>,
    after: Stack<R>,
    completions: Seq<Completion<R>>,
    handle: SocketHandle,
)
    requires
        after.pending_processed(&before, completions),
        before.pending@.contains_key(handle),
        before.pending@[handle] is TcpConnect,
        before.socks().contains_key(handle),
    ensures
        ({
            let state = before.socks()[handle]->Tcp_0.state;
            let decided = state == TcpState::Established || state == TcpState::Closed || state
                == TcpState::TimeWait;
            let told = exists|i: int|
                0 <= i < completions.len() && (#[trigger] completions[i]).handle == Some(handle);
            &&& told <==> decided
            &&& after.pending@.contains_key(handle) <==> !decided
            &&& !decided ==> after.pending@[handle] == before.pending@[handle]
            &&& forall|i: int|
                0 <= i < completions.len() && (#[trigger] completions[i]).handle == Some(handle)
                    ==> {
                    &&& completions[i].response == before.pending@[handle]->TcpConnect_response
                    &&& completions[i].result is Ok <==> state == TcpState::Established
                    &&& completions[i].result matches Ok(connected) ==> {
                        &&& connected.handle == handle
                        &&& connected.peer == before.pending@[handle]->TcpConnect_peer_addr
                        &&& connected.local == before.pending@[handle]->TcpConnect_local_addr
                        &&& connected.channels == before.pending@[handle]->TcpConnect_channels
                    }
                    &&& completions[i].result matches Err(error) ==> error.kind
                        == ErrorKind::ConnectionRefused
                }
        }),
{
    let (keys, steps, answers) = choose|
        keys: Seq<SocketHandle>,
        steps: Seq<Stack<R>>,
        answers: Seq<Option<Completion<R>>>,
    |
        #![trigger dealt_with(before, after, keys, steps, answers)]
        {
            &&& keys.no_duplicates()
            &&& keys.to_set() == before.pending@.dom()
            &&& dealt_with(before, after, keys, steps, answers)
            &&& completions == given(answers)
        };
    assert(keys.to_set().contains(handle));
    let j = choose|j: int| 0 <= j < keys.len() && keys[j] == handle;
    lemma_dealt_with(before, after, keys, steps, answers, keys.len() as int);
    lemma_dealt_with(before, after, keys, steps, answers, j);
    assert(steps[j + 1].answered(&steps[j], keys[j], answers[j]));
    if answers[j] is Some {
        let c = lemma_given_contains(answers, j);
        assert(completions[c].handle == Some(handle));
    }
    assert forall|i: int|
        0 <= i < completions.len() && (#[trigger] completions[i]).handle == Some(
            handle,
        ) implies answers[j] is Some && completions[i] == answers[j]->0 by {
        let at = lemma_given_origin(answers, i);
        assert(steps[at + 1].answered(&steps[at], keys[at], answers[at]));
        assert(keys[at] == handle);
    }
    if after.pending@.contains_key(handle) {
        assert(after.undecided(handle));
    }
}

/// What whoever waits for a listener is told when those who wait are dealt with.
proof fn lemma_accept_told<R>(
    before: Stack<R>,
    after: Stack<R>,
    completions: Seq<Completion<R>>,
    handle: SocketHandle,
)
    requires
        before.wf(),
        after.pending_processed(&before, completions),
        before.pending@.contains_key(handle),
        before.pending@[handle] is TcpAccept,
    ensures
        ({
            let list = before.listeners@[handle].listening_handles@;
            let decided = !before.listeners@.contains_key(handle) || exists|i: int|
                0 <= i < list.len() && was_ready(before, #[trigger] list[i]);
            let told = exists|i: int|
                0 <= i < completions.len() && (#[trigger] completions[i]).handle == Some(handle);
            &&& told <==> decided
            &&& after.pending@.contains_key(handle) <==> !decided
            &&& !decided ==> after.pending@[handle] == before.pending@[handle]
            &&& forall|i: int|
                0 <= i < completions.len() && (#[trigger] completions[i]).handle == Some(handle)
                    ==> {
                    &&& completions[i].response == before.pending@[handle]->TcpAccept_response
                    &&& completions[i].result is Ok <==> before.listeners@.contains_key(handle)
                    &&& completions[i].result matches Ok(connected) ==> list.contains(
                        connected.handle,
                    ) && was_ready(before, connected.handle)
                    &&& completions[i].result matches Err(error) ==> error.kind
                        == ErrorKind::InvalidInput
                }
        }),
{
    let (keys, steps, answers) = choose|
        keys: Seq<SocketHandle>,
        steps: Seq<Stack<R>>,
        answers: Seq<Option<Completion<R>>>,
    |
        #![trigger dealt_with(before, after, keys, steps, answers)]
        {
            &&& keys.no_duplicates()
            &&& keys.to_set() == before.pending@.dom()
            &&& dealt_with(before, after, keys, steps, answers)
            &&& completions == given(answers)
        };
    assert(keys.to_set().contains(handle));
    let j = choose|j: int| 0 <= j < keys.len() && keys[j] == handle;
    lemma_dealt_with(before, after, keys, steps, answers, keys.len() as int);
    lemma_dealt_with(before, after, keys, steps, answers, j);
    assert(steps[j + 1].answered(&steps[j], keys[j], answers[j]));
    let list = before.listeners@[handle].listening_handles@;
    if before.listeners@.contains_key(handle) {
        assert forall|i: int| 0 <= i < list.len() implies (handlers::ready(
            steps[j].socks(),
            #[trigger] list[i],
        ) <==> was_ready(before, list[i])) by {
            assert(is_tcp(before.socks(), list[i]));
            assert(before.socks().contains_key(list[i]));
        }
        if handlers::none_ready(steps[j].socks(), list) {
            assert forall|i: int| 0 <= i < list.len() implies !was_ready(
                before,
                #[trigger] list[i],
            ) by {
                assert(!handlers::ready(steps[j].socks(), list[i]));
            }
        } else {
            let i = choose|i: int|
                0 <= i < list.len() && handlers::ready(steps[j].socks(), #[trigger] list[i]);
            assert(was_ready(before, list[i]));
        }
    }
    if answers[j] is Some {
        let c = lemma_given_contains(answers, j);
        assert(completions[c].handle == Some(handle));
        if answers[j]->0.result is Ok {
            let connected = answers[j]->0.result->Ok_0;
            let i = choose|i: int|
                #[trigger] steps[j + 1].connection_accepted(&steps[j], handle, i, connected);
            assert(list[i] == connected.handle);
            assert(handlers::ready(steps[j].socks(), list[i]));
        }
    }
    assert forall|i: int|
        0 <= i < completions.len() && (#[trigger] completions[i]).handle == Some(
            handle,
        ) implies answers[j] is Some && completions[i] == answers[j]->0 by {
        let at = lemma_given_origin(answers, i);
        assert(steps[at + 1].answered(&steps[at], keys[at], answers[at]));
        assert(keys[at] == handle);
    }
    if after.pending@.contains_key(handle) {
        assert(after.undecided(handle));
    }
}

/// At the end of a round in which a socket has changed its state, whoever waits for a
/// listener is told, once, where one of its sockets is connected or the listener is
/// gone; and everybody who waits is told where the proxy is gone. Nobody else is told
/// anything, and who is told does not wait any more.
pub proof fn rounds_tell_those_who_accept<R>(
    stack: &mut Stack<R>,
    changed: bool,
    ipc_dead: bool,
    stats: &mut TunnelStats,
    outcome: (Vec<Completion<R>>, bool),
    handle: SocketHandle,
)
    requires
        old(stack).wf(),
        call_ensures(Stack::<R>::finish_round, (stack, changed, ipc_dead, stats), outcome),
        old(stack).pending@.contains_key(handle),
        old(stack).pending@[handle] is TcpAccept,
    ensures
        ({
            let sockets = net::sockets_view(old(stack).sockets);
            let known = old(stack).listeners@.contains_key(handle);
            let list = old(stack).listeners@[handle].listening_handles@;
            let decided = changed && (!known || exists|i: int|
                0 <= i < list.len() && sockets[#[trigger] list[i]]->Tcp_0.state
                    == TcpState::Established && sockets[list[i]]->Tcp_0.tuple is Some);
            let told = exists|i: int|
                0 <= i < outcome.0@.len() && (#[trigger] outcome.0@[i]).handle == Some(handle);
            &&& told <==> decided || ipc_dead
            &&& final(stack).pending@.contains_key(handle) <==> !told
            &&& forall|i: int|
                0 <= i < outcome.0@.len() && (#[trigger] outcome.0@[i]).handle == Some(handle) ==> {
                    &&& outcome.0@[i].response == old(stack).pending@[handle]->TcpAccept_response
                    &&& outcome.0@[i].result is Ok <==> decided && known
                    &&& outcome.0@[i].result matches Ok(connected) ==> list.contains(
                        connected.handle,
                    ) && sockets[connected.handle]->Tcp_0.state == TcpState::Established
                    &&& outcome.0@[i].result matches Err(error) ==> error.kind == if decided {
                        ErrorKind::InvalidInput
                    } else {
                        ErrorKind::ConnectionAborted
                    }
                }
        }),
{
    let completions = outcome.0@;
    let (read, told, split) = choose|read: Stack<R>, told: Stack<R>, split: int|
        #[trigger] final(stack).round_finished(
            old(stack),
            changed,
            ipc_dead,
            read,
            told,
            split,
            completions,
            old(stats).counts(),
            final(stats).counts(),
        );
    let first = completions.take(split);
    let second = completions.skip(split);
    let before = *old(stack);
    let list = before.listeners@[handle].listening_handles@;
    assert(read.polled(&before, false, old(stats).counts(), final(stats).counts()));
    if before.listeners@.contains_key(handle) {
        assert forall|i: int| 0 <= i < list.len() implies read.socks()[#[trigger] list[i]]
            == before.socks()[list[i]] by {
            assert(is_tcp(before.socks(), list[i]));
            assert(!before.udp_states@.contains_key(list[i])) by {
                if before.udp_states@.contains_key(list[i]) {
                    assert(is_udp(before.socks(), list[i]));
                }
            }
            assert(before.socks().contains_key(list[i]));
        }
    }
    if changed {
        lemma_accept_told(read, told, first, handle);
        if exists|i: int| 0 <= i < list.len() && was_ready(read, #[trigger] list[i]) {
            let i = choose|i: int| 0 <= i < list.len() && was_ready(read, #[trigger] list[i]);
            if before.listeners@.contains_key(handle) {
                assert(was_ready(before, list[i]));
            }
        }
        if before.listeners@.contains_key(handle) && exists|i: int|
            0 <= i < list.len() && was_ready(before, #[trigger] list[i]) {
            let i = choose|i: int| 0 <= i < list.len() && was_ready(before, #[trigger] list[i]);
            assert(was_ready(read, list[i]));
        }
    } else {
        assert(first.len() == 0);
    }
    if ipc_dead {
        assert(!final(stack).pending@.dom().contains(handle));
        assert forall|i: int| 0 <= i < second.len() implies told.pending@.contains_key(
            (#[trigger] second[i]).handle->0,
        ) by {}
        if told.pending@.contains_key(handle) {
            assert(told.pending@.contains_key(handle) && !final(stack).pending@.contains_key(handle));
            let i = choose|i: int|
                0 <= i < second.len() && (#[trigger] second[i]).handle == Some(handle);
            assert(completions[i + split] == second[i]);
            assert(told.pending@[handle] == before.pending@[handle]);
        }
    } else {
        assert(completions.take(split) =~= completions);
    }
    assert forall|i: int|
        0 <= i < completions.len() && (#[trigger] completions[i]).handle == Some(
            handle,
        ) implies if i < split {
        completions[i] == first[i]
    } else {
        completions[i] == second[i - split] && told.pending@.contains_key(handle)
    } by {
        if i >= split {
            assert(completions[i] == second[i - split]);
            assert(told.pending@.contains_key(second[i - split].handle->0));
        }
    }
    if exists|i: int| 0 <= i < first.len() && (#[trigger] first[i]).handle == Some(handle) {
        let i = choose|i: int| 0 <= i < first.len() && (#[trigger] first[i]).handle == Some(handle);
        assert(completions[i] == first[i]);
    }
}

} // verus!
