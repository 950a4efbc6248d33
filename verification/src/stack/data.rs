//! Moving data between the channels and the sockets.

use vstd::prelude::*;

use smoltcp::socket::{tcp, udp};
use tokio::sync::mpsc::Sender;

use super::channels::{
    self, Pull, SendOutcome, SenderView, Sending, Taking, TcpSocketState, UdpSocketState,
};
use super::net::{self, Endpoint, Packet, TcpState, TcpView, UdpView};
use crate::addr::{IpAddr, SocketAddr};
use crate::bytes;
use crate::stats::{Event, TunnelStats, TunnelStatsSnapshot};

verus! {

/// Size of the buffers of a TCP socket in bytes, in each direction.
pub const TCP_SOCKET_BUFFER_SIZE: usize = 65535;

/// Size of the packet buffers of a UDP socket in bytes, in each direction.
pub const UDP_PACKET_BUFFER_SIZE: usize = 65535;

/// How many packets the buffers of a UDP socket hold, in each direction.
pub const UDP_PACKET_METADATA_SLOTS: usize = 128;

/// How many items are taken out of one channel before the next has its turn.
pub const PULL_BUDGET: u64 = u64::MAX;

/// The chunks one after the other.
pub open spec fn joined(chunks: Seq<Seq<u8>>) -> Seq<u8>
    decreases chunks.len(),
{
    if chunks.len() == 0 {
        Seq::empty()
    } else {
        joined(chunks.drop_last()) + chunks.last()
    }
}

/// The bytes of a chunk, where there is one.
pub open spec fn kept(chunk: Option<Vec<u8>>) -> Option<Seq<u8>> {
    match chunk {
        Some(data) => Some(data@),
        None => None,
    }
}

pub open spec fn or_nothing(data: Option<Seq<u8>>) -> Seq<u8> {
    match data {
        Some(data) => data,
        None => Seq::empty(),
    }
}

/// The part of `data` that the socket does not take.
pub open spec fn left_over(view: TcpView, data: Seq<u8>) -> Option<Seq<u8>> {
    if view.taken(data.len()) < data.len() {
        Some(data.skip(view.taken(data.len()) as int))
    } else {
        None
    }
}

/// The socket after it was given each chunk in turn.
pub open spec fn fed(view: TcpView, chunks: Seq<Seq<u8>>) -> TcpView
    decreases chunks.len(),
{
    if chunks.len() == 0 {
        view
    } else {
        fed(view, chunks.drop_last()).sending(chunks.last())
    }
}

/// The socket was open and had room when chunk `i` was taken from the channel,
/// and only of the last chunk can a part be left.
pub open spec fn was_fed(start: TcpView, chunks: Seq<Seq<u8>>, i: int) -> bool {
    &&& fed(start, chunks.take(i)).can_send()
    &&& i < chunks.len() - 1 ==> left_over(fed(start, chunks.take(i)), chunks[i]) is None
}

/// Taking `chunks` from the channel leads to `after` and leaves `left`. That
/// goes on until the socket has no more room, or the channel nothing to take;
/// one whose other end is gone closes the socket.
pub open spec fn pulled(
    start: TcpView,
    chunks: Seq<Seq<u8>>,
    miss: Option<bool>,
    after: TcpView,
    left: Option<Seq<u8>>,
) -> bool {
    &&& forall|i: int| 0 <= i < chunks.len() ==> #[trigger] was_fed(start, chunks, i)
    &&& left == if chunks.len() == 0 {
        None
    } else {
        left_over(fed(start, chunks.drop_last()), chunks.last())
    }
    &&& after == if miss == Some(true) {
        fed(start, chunks).closing()
    } else {
        fed(start, chunks)
    }
    &&& if miss is None {
        !fed(start, chunks).can_send() || chunks.len() == PULL_BUDGET
    } else {
        left is None && fed(start, chunks).can_send()
    }
}

/// What a round of writing does: first what was left of an earlier chunk, then
/// the chunks from the channel.
pub open spec fn wrote(
    before: TcpView,
    pending: Option<Seq<u8>>,
    chunks: Seq<Seq<u8>>,
    miss: Option<bool>,
    after: TcpView,
    left: Option<Seq<u8>>,
) -> bool {
    match pending {
        None => pulled(before, chunks, miss, after, left),
        Some(data) => if !before.may_send() {
            chunks.len() == 0 && miss is None && after == before && left == pending
        } else if left_over(before, data) is Some {
            chunks.len() == 0 && miss is None && after == before.sending(data) && left
                == left_over(before, data)
        } else {
            pulled(before.sending(data), chunks, miss, after, left)
        },
    }
}

proof fn lemma_fed_in_order(start: TcpView, chunks: Seq<Seq<u8>>)
    requires
        forall|i: int| 0 <= i < chunks.len() ==> #[trigger] was_fed(start, chunks, i),
    ensures
        chunks.len() > 0 ==> fed(start, chunks).outgoing + or_nothing(
            left_over(fed(start, chunks.drop_last()), chunks.last()),
        ) == start.outgoing + joined(chunks),
        chunks.len() == 0 ==> fed(start, chunks).outgoing == start.outgoing + joined(chunks),
    decreases chunks.len(),
{
    if chunks.len() == 0 {
        assert(start.outgoing + joined(chunks) =~= start.outgoing);
    } else {
        let init = chunks.drop_last();
        assert forall|i: int| 0 <= i < init.len() implies #[trigger] was_fed(start, init, i) by {
            assert(was_fed(start, chunks, i));
            assert(init.take(i) =~= chunks.take(i));
        }
        lemma_fed_in_order(start, init);
        if init.len() > 0 {
            assert(was_fed(start, chunks, init.len() - 1));
            assert(chunks.take(init.len() - 1) =~= init.drop_last());
        }
        assert(fed(start, init).outgoing =~= start.outgoing + joined(init));
        assert(was_fed(start, chunks, init.len() as int));
        assert(chunks.take(init.len() as int) =~= init);
        let data = chunks.last();
        let n = fed(start, init).taken(data.len()) as int;
        if n < data.len() {
            assert(data.take(n) + data.skip(n) =~= data);
        } else {
            assert(data.take(n) + Seq::<u8>::empty() =~= data);
        }
        assert(fed(start, chunks).outgoing + or_nothing(left_over(fed(start, init), data))
            =~= start.outgoing + joined(chunks));
    }
}

/// Written bytes are neither lost nor doubled, and stay in order: what the
/// socket holds for sending, followed by what is left of a chunk, grows by just
/// the chunks taken from the channel.
pub proof fn written_bytes_stay_in_order(
    before: TcpView,
    pending: Option<Seq<u8>>,
    chunks: Seq<Seq<u8>>,
    miss: Option<bool>,
    after: TcpView,
    left: Option<Seq<u8>>,
)
    requires
        wrote(before, pending, chunks, miss, after, left),
    ensures
        after.outgoing + or_nothing(left) == before.outgoing + or_nothing(pending) + joined(chunks),
{
    match pending {
        None => {
            lemma_fed_in_order(before, chunks);
            assert(before.outgoing + or_nothing(pending) =~= before.outgoing);
            if chunks.len() == 0 {
                assert(after.outgoing + or_nothing(left) =~= after.outgoing);
            }
        },
        Some(data) => {
            let n = before.taken(data.len()) as int;
            if !before.may_send() {
                assert(before.outgoing + data + joined(chunks) =~= before.outgoing + data);
            } else if left_over(before, data) is Some {
                assert(before.outgoing + data.take(n) + data.skip(n) =~= before.outgoing + data
                    + joined(chunks));
            } else {
                lemma_fed_in_order(before.sending(data), chunks);
                assert(data.take(n) =~= data);
                if chunks.len() == 0 {
                    assert(after.outgoing + or_nothing(left) =~= after.outgoing);
                }
            }
        },
    }
}

proof fn lemma_fed_prefix(start: TcpView, chunks: Seq<Seq<u8>>)
    ensures
        fed(start, chunks).outgoing.len() >= start.outgoing.len(),
        fed(start, chunks).outgoing.take(start.outgoing.len() as int) == start.outgoing,
    decreases chunks.len(),
{
    let len = start.outgoing.len() as int;
    if chunks.len() == 0 {
        assert(start.outgoing.take(len) =~= start.outgoing);
    } else {
        lemma_fed_prefix(start, chunks.drop_last());
        let init = fed(start, chunks.drop_last()).outgoing;
        assert(fed(start, chunks).outgoing.take(len) =~= init.take(len));
    }
}

/// One round of writing to a socket.
pub ghost struct WriteRound {
    pub before: TcpView,
    pub pending: Option<Seq<u8>>,
    pub chunks: Seq<Seq<u8>>,
    pub miss: Option<bool>,
    pub after: TcpView,
    pub left: Option<Seq<u8>>,
}

impl WriteRound {
    pub open spec fn wf(self) -> bool {
        wrote(self.before, self.pending, self.chunks, self.miss, self.after, self.left)
    }

    /// What the socket took in this round.
    pub open spec fn accepted(self) -> Seq<u8> {
        self.after.outgoing.skip(self.before.outgoing.len() as int)
    }

    proof fn lemma_accepted(self)
        requires
            self.wf(),
        ensures
            self.accepted() + or_nothing(self.left) == or_nothing(self.pending) + joined(
                self.chunks,
            ),
    {
        written_bytes_stay_in_order(
            self.before,
            self.pending,
            self.chunks,
            self.miss,
            self.after,
            self.left,
        );
        let start = match self.pending {
            Some(data) => if self.before.may_send() {
                self.before.sending(data)
            } else {
                self.before
            },
            None => self.before,
        };
        let len = self.before.outgoing.len() as int;
        assert(start.outgoing.take(len) =~= self.before.outgoing);
        lemma_fed_prefix(start, self.chunks);
        let whole = self.after.outgoing;
        assert(whole.take(len) =~= self.before.outgoing) by {
            if fed(start, self.chunks).outgoing == whole {
                assert(whole.take(start.outgoing.len() as int).take(len) =~= whole.take(len));
            }
        }
        let both = whole + or_nothing(self.left);
        assert(both.skip(len) =~= self.accepted() + or_nothing(self.left));
        assert((self.before.outgoing + or_nothing(self.pending) + joined(self.chunks)).skip(len)
            =~= or_nothing(self.pending) + joined(self.chunks));
    }
}

/// All that the socket took in these rounds.
pub open spec fn all_accepted(rounds: Seq<WriteRound>) -> Seq<u8>
    decreases rounds.len(),
{
    if rounds.len() == 0 {
        Seq::empty()
    } else {
        all_accepted(rounds.drop_last()) + rounds.last().accepted()
    }
}

/// All that came from the channel in these rounds.
pub open spec fn all_written(rounds: Seq<WriteRound>) -> Seq<u8>
    decreases rounds.len(),
{
    if rounds.len() == 0 {
        Seq::empty()
    } else {
        all_written(rounds.drop_last()) + joined(rounds.last().chunks)
    }
}

/// Over any number of rounds, and whatever the network does to the socket in
/// between: what the socket took, followed by what is left, is what was written
/// to the channel, in order.
pub proof fn rounds_keep_the_written_stream(rounds: Seq<WriteRound>)
    requires
        rounds.len() > 0,
        rounds[0].pending is None,
        forall|i: int| 0 <= i < rounds.len() ==> (#[trigger] rounds[i]).wf(),
        forall|i: int, j: int|
            #![trigger rounds[i], rounds[j]]
            0 <= i < rounds.len() && j == i + 1 && j < rounds.len() ==> rounds[j].pending
                == rounds[i].left,
    ensures
        all_accepted(rounds) + or_nothing(rounds.last().left) == all_written(rounds),
    decreases rounds.len(),
{
    let init = rounds.drop_last();
    let last = rounds.last();
    assert(rounds[rounds.len() - 1] == last);
    last.lemma_accepted();
    if init.len() == 0 {
        assert(all_accepted(init) =~= Seq::<u8>::empty());
        assert(all_written(init) =~= Seq::<u8>::empty());
        assert(all_accepted(rounds) =~= last.accepted());
        assert(all_written(rounds) =~= joined(last.chunks));
        assert(or_nothing(last.pending) + joined(last.chunks) =~= joined(last.chunks));
    } else {
        assert forall|i: int| 0 <= i < init.len() implies (#[trigger] init[i]).wf() by {
            assert(init[i] == rounds[i]);
        }
        assert forall|i: int, j: int|
            #![trigger init[i], init[j]]
            0 <= i < init.len() && j == i + 1 && j < init.len() implies init[j].pending
            == init[i].left by {
            assert(rounds[i] == init[i] && rounds[j] == init[j]);
        }
        rounds_keep_the_written_stream(init);
        assert(rounds[rounds.len() - 2] == init.last());
        assert(last.pending == init.last().left);
        assert(all_accepted(rounds) + or_nothing(last.left) =~= all_accepted(init) + (
        last.accepted() + or_nothing(last.left)));
        assert(all_written(rounds) =~= all_accepted(init) + (or_nothing(last.pending) + joined(
            last.chunks,
        )));
    }
}

/// Give the socket what was left of an earlier chunk. Says whether there is
/// room for more.
pub fn flush_pending(
    socket: &mut tcp::Socket<'static>,
    pending: Option<Vec<u8>>,
) -> (outcome: (Option<Vec<u8>>, bool))
    ensures
        ({
            let before = net::tcp_view(*old(socket));
            let after = net::tcp_view(*final(socket));
            match pending {
                None => after == before && outcome.0 is None && outcome.1,
                Some(data) => if !before.may_send() {
                    after == before && kept(outcome.0) == Some(data@) && !outcome.1
                } else {
                    after == before.sending(data@) && kept(outcome.0) == left_over(before, data@)
                        && outcome.1 == (outcome.0 is None)
                },
            }
        }),
{
    match pending {
        None => (None, true),
        Some(data) => {
            if !net::tcp_may_send(socket) {
                return (Some(data), false);
            }
            match net::tcp_send_slice(socket, &data) {
                Some(n) => {
                    if n < data.len() {
                        let rest = bytes::copy_range(&data, n, data.len());
                        assert(rest@ =~= data@.skip(n as int));
                        (Some(rest), false)
                    } else {
                        (None, true)
                    }
                },
                None => (None, false),
            }
        },
    }
}

/// Act on what came of asking the channel for a chunk. Hands back what the
/// socket did not take, and whether to ask again.
pub fn write_pulled(socket: &mut tcp::Socket<'static>, pull: Pull<Vec<u8>>) -> (outcome: (
    Option<Vec<u8>>,
    bool,
))
    ensures
        ({
            let before = net::tcp_view(*old(socket));
            let after = net::tcp_view(*final(socket));
            match pull {
                Pull::Item(chunk) => if before.may_send() {
                    after == before.sending(chunk@) && kept(outcome.0) == left_over(before, chunk@)
                        && outcome.1 == (outcome.0 is None)
                } else {
                    after == before && outcome.0 is None && !outcome.1
                },
                Pull::Empty => after == before && outcome.0 is None && !outcome.1,
                Pull::Disconnected => after == before.closing() && outcome.0 is None && !outcome.1,
            }
        }),
{
    match pull {
        Pull::Item(chunk) => match net::tcp_send_slice(socket, &chunk) {
            Some(n) => {
                if n < chunk.len() {
                    let rest = bytes::copy_range(&chunk, n, chunk.len());
                    assert(rest@ =~= chunk@.skip(n as int));
                    (Some(rest), false)
                } else {
                    (None, true)
                }
            },
            None => (None, false),
        },
        Pull::Empty => (None, false),
        Pull::Disconnected => {
            net::tcp_close(socket);
            (None, false)
        },
    }
}

/// Data went from the channel to the socket.
pub open spec fn tcp_written(
    before: TcpView,
    state: TcpSocketState,
    after: TcpView,
    next: TcpSocketState,
) -> bool {
    let rx = channels::receiver_view(state.write_rx);
    let next_rx = channels::receiver_view(next.write_rx);
    &&& rx.drains_to(next_rx)
    &&& next.read_tx == state.read_tx
    &&& wrote(
        before,
        kept(state.pending_write),
        channels::taken(rx.news(next_rx)),
        channels::missed(rx.news(next_rx)),
        after,
        kept(next.pending_write),
    )
}

/// Take data from the channel and give it to the socket.
pub fn process_tcp_write(socket: &mut tcp::Socket<'static>, state: &mut TcpSocketState)
    ensures
        tcp_written(
            net::tcp_view(*old(socket)),
            *old(state),
            net::tcp_view(*final(socket)),
            *final(state),
        ),
{
    let ghost rx = channels::receiver_view(state.write_rx);
    let ghost mut chunks: Seq<Seq<u8>> = Seq::empty();
    let ghost mut miss: Option<bool> = None;
    let (left, go_on) = flush_pending(socket, state.pending_write.take());
    state.pending_write = left;
    proof {
        rx.lemma_same();
        assert(channels::draining(chunks, miss) =~= rx.news(rx));
        channels::lemma_draining(chunks, miss);
    }
    if !go_on {
        return;
    }
    let ghost start = net::tcp_view(*socket);
    let mut budget: u64 = PULL_BUDGET;
    let mut running: bool = true;
    while running && budget > 0 && net::tcp_can_send(socket)
        invariant
            rx.grows_to(channels::receiver_view(state.write_rx)),
            rx.news(channels::receiver_view(state.write_rx)) == channels::draining(chunks, miss),
            state.read_tx == old(state).read_tx,
            running ==> {
                &&& state.pending_write is None
                &&& net::tcp_view(*socket) == fed(start, chunks)
                &&& miss is None
                &&& chunks.len() + budget == PULL_BUDGET
                &&& fed_so_far(start, chunks)
            },
            !running ==> pulled(
                start,
                chunks,
                miss,
                net::tcp_view(*socket),
                kept(state.pending_write),
            ),
        decreases budget,
    {
        budget = budget - 1;
        let ghost half = channels::receiver_view(state.write_rx);
        let pull = channels::try_recv_chunk(&mut state.write_rx);
        proof {
            if pull is Item {
                let chunk = pull->Item_0@;
                rx.lemma_more(half, Taking::Took(chunk));
                channels::lemma_draining_more(chunks, chunk);
                let more = chunks.push(chunk);
                assert(more.drop_last() =~= chunks);
                assert forall|i: int| 0 <= i < more.len() implies #[trigger] was_fed(
                    start,
                    more,
                    i,
                ) by {
                    if i < chunks.len() {
                        assert(was_fed(start, chunks, i));
                        assert(more.take(i) =~= chunks.take(i));
                        if i == chunks.len() - 1 {
                            assert(chunks.take(i) =~= chunks.drop_last());
                        }
                    } else {
                        assert(more.take(i) =~= chunks);
                    }
                }
                chunks = more;
            } else {
                let gone = pull is Disconnected;
                rx.lemma_more(half, Taking::Missed(gone));
                miss = Some(gone);
            }
        }
        let (left, go_on) = write_pulled(socket, pull);
        state.pending_write = left;
        running = go_on;
    }
    proof {
        channels::lemma_draining(chunks, miss);
    }
}

/// The socket took each of the chunks whole, and had room for more whenever one
/// was taken from the channel.
pub open spec fn fed_so_far(start: TcpView, chunks: Seq<Seq<u8>>) -> bool {
    &&& forall|i: int| 0 <= i < chunks.len() ==> #[trigger] was_fed(start, chunks, i)
    &&& chunks.len() > 0 ==> left_over(fed(start, chunks.drop_last()), chunks.last()) is None
}

/// Data went from the socket to the channel.
pub open spec fn tcp_read(
    before: TcpView,
    state: TcpSocketState,
    after: TcpView,
    next: TcpSocketState,
) -> bool {
    &&& next.write_rx == state.write_rx
    &&& next.pending_write == state.pending_write
    &&& if state.read_tx is None || before.at_end() {
        next.read_tx is None && after == before
    } else {
        let tx = channels::sender_view(state.read_tx->0);
        let next_tx = channels::sender_view(next.read_tx->0);
        &&& next.read_tx is Some
        &&& handed_over(before, tx, after, next_tx)
    }
}

/// Data went from the socket to the channel, each chunk in a place that was
/// reserved for it. That ends when all was handed over, or when there was no
/// place.
pub open spec fn handed_over(
    before: TcpView,
    tx: SenderView<Seq<u8>>,
    after: TcpView,
    next_tx: SenderView<Seq<u8>>,
) -> bool {
    &&& tx.hands_to(next_tx)
    &&& read_out(before, channels::sent(tx.news(next_tx)), after)
    &&& channels::unused(tx.news(next_tx)) == no_place(after.incoming.len() > 0)
}

/// The answer that ends a round of reading: there was no place for what is left.
pub open spec fn no_place(left: bool) -> Option<bool> {
    if left {
        Some(false)
    } else {
        None
    }
}

proof fn lemma_fed_rest(view: TcpView, chunks: Seq<Seq<u8>>)
    ensures
        fed(view, chunks) == (TcpView { outgoing: fed(view, chunks).outgoing, ..view }),
    decreases chunks.len(),
{
    if chunks.len() > 0 {
        lemma_fed_rest(view, chunks.drop_last());
    }
}

/// Moving data does not keep a socket from being polled.
pub proof fn moving_data_keeps_sockets_pollable(
    before: TcpView,
    state: TcpSocketState,
    after: TcpView,
    next: TcpSocketState,
)
    requires
        tcp_written(before, state, after, next) || tcp_read(before, state, after, next),
        before.pollable(),
    ensures
        after.pollable(),
{
    if tcp_written(before, state, after, next) {
        let rx = channels::receiver_view(state.write_rx);
        let news = channels::taken(rx.news(channels::receiver_view(next.write_rx)));
        lemma_fed_rest(before, news);
        match kept(state.pending_write) {
            Some(data) => lemma_fed_rest(before.sending(data), news),
            None => {},
        }
    }
}

/// Moving data leaves a socket the ends that it has.
pub proof fn moving_data_keeps_the_ends(
    before: TcpView,
    state: TcpSocketState,
    after: TcpView,
    next: TcpSocketState,
)
    requires
        tcp_written(before, state, after, next) || tcp_read(before, state, after, next),
    ensures
        after.tuple == before.tuple,
        after.listening_on == before.listening_on,
        after.state == TcpState::Listen ==> before.state == TcpState::Listen,
{
    if tcp_written(before, state, after, next) {
        let rx = channels::receiver_view(state.write_rx);
        let news = channels::taken(rx.news(channels::receiver_view(next.write_rx)));
        lemma_fed_rest(before, news);
        match kept(state.pending_write) {
            Some(data) => lemma_fed_rest(before.sending(data), news),
            None => {},
        }
    }
}

/// The reader is told of the end only where nothing more will come, and that
/// stays so: neither writing nor reading takes a connection back from its end.
pub proof fn end_is_final(
    before: TcpView,
    state: TcpSocketState,
    after: TcpView,
    next: TcpSocketState,
)
    requires
        tcp_written(before, state, after, next) || tcp_read(before, state, after, next),
        state.read_tx is None ==> net::far_end_closed(before.state),
    ensures
        next.read_tx is None ==> net::far_end_closed(after.state),
        net::far_end_closed(before.state) ==> net::far_end_closed(after.state),
        state.read_tx is None ==> next.read_tx is None,
{
    if tcp_written(before, state, after, next) {
        let rx = channels::receiver_view(state.write_rx);
        let news = channels::taken(rx.news(channels::receiver_view(next.write_rx)));
        lemma_fed_rest(before, news);
        match kept(state.pending_write) {
            Some(data) => lemma_fed_rest(before.sending(data), news),
            None => {},
        }
    }
}

/// Take data from the socket and hand it to the channel. Every chunk is as
/// large as it can be. Where nothing more will come, the channel is given up.
pub fn process_tcp_read(socket: &mut tcp::Socket<'static>, state: &mut TcpSocketState)
    ensures
        tcp_read(
            net::tcp_view(*old(socket)),
            *old(state),
            net::tcp_view(*final(socket)),
            *final(state),
        ),
{
    match state.read_tx.take() {
        Some(tx) => {
            if net::tcp_can_recv(socket) || !receives_no_more(net::tcp_state(socket)) {
                state.read_tx = Some(hand_over(socket, tx));
            }
        },
        None => {},
    }
}

/// Whether a connection in this state will receive nothing more.
fn receives_no_more(state: TcpState) -> (over: bool)
    ensures
        over == net::far_end_closed(state),
{
    state == TcpState::CloseWait || state == TcpState::Closing || state == TcpState::LastAck
        || state == TcpState::TimeWait || state == TcpState::Closed
}

/// Hand what the socket has received to the channel, as far as that has room.
fn hand_over(socket: &mut tcp::Socket<'static>, tx: Sender<Vec<u8>>) -> (next_tx: Sender<Vec<u8>>)
    ensures
        handed_over(
            net::tcp_view(*old(socket)),
            channels::sender_view(tx),
            net::tcp_view(*final(socket)),
            channels::sender_view(next_tx),
        ),
{
    let ghost from = channels::sender_view(tx);
    let ghost start = net::tcp_view(*socket);
    let ghost mut chunks: Seq<Seq<u8>> = Seq::empty();
    let mut end = tx;
    let mut running: bool = true;
    proof {
        from.lemma_same();
        assert(channels::handing(chunks, None) =~= from.news(from));
        assert(joined(chunks) =~= start.incoming.take(0));
        assert(start.incoming.skip(0) =~= start.incoming);
    }
    while running && net::tcp_can_recv(socket)
        invariant
            from.grows_to(channels::sender_view(end)),
            from.news(channels::sender_view(end)) == channels::handing(chunks, no_place(!running)),
            !running ==> net::tcp_view(*socket).incoming.len() > 0,
            read_out(start, chunks, net::tcp_view(*socket)),
        decreases net::tcp_view(*socket).incoming.len(), (if running { 1int } else { 0int }),
    {
        let ghost half = channels::sender_view(end);
        match channels::reserve_chunk(end) {
            Ok(permit) => {
                let ghost asked = channels::permit_view(permit);
                proof {
                    from.lemma_more(half, Sending::Asked(true));
                }
                match take_received(socket) {
                    Some(chunk) => {
                        let ghost data = chunk@;
                        end = channels::send_reserved_chunk(permit, chunk);
                        proof {
                            from.lemma_more(asked, Sending::Handed(data, SendOutcome::Sent));
                            channels::lemma_handing_more(chunks, data);
                            let more = chunks.push(data);
                            assert(more.drop_last() =~= chunks);
                            let len = joined(chunks).len() as int;
                            assert(joined(more) =~= start.incoming.take(len + data.len()));
                            assert(net::tcp_view(*socket).incoming =~= start.incoming.skip(
                                len + data.len(),
                            ));
                            assert forall|i: int| 0 <= i < more.len() implies #[trigger] read_chunk(
                                start,
                                more,
                                i,
                            ) by {
                                if i < chunks.len() {
                                    assert(read_chunk(start, chunks, i));
                                    assert(more.take(i) =~= chunks.take(i));
                                } else {
                                    assert(more.take(i) =~= chunks);
                                }
                            }
                            chunks = more;
                        }
                    },
                    None => {
                        end = channels::release_chunk(permit);
                        running = false;
                    },
                }
            },
            Err(back) => {
                end = back;
                running = false;
                proof {
                    from.lemma_more(half, Sending::Asked(false));
                }
            },
        }
    }
    proof {
        channels::lemma_handing(chunks, no_place(!running));
    }
    end
}

/// Chunk `i` holds all that was left, up to the size of the buffer.
pub open spec fn read_chunk(before: TcpView, chunks: Seq<Seq<u8>>, i: int) -> bool {
    let rest = before.incoming.len() - joined(chunks.take(i)).len();
    &&& 0 < rest
    &&& chunks[i].len() == if rest < TCP_SOCKET_BUFFER_SIZE {
        rest
    } else {
        TCP_SOCKET_BUFFER_SIZE as int
    }
}

/// What a round of reading does: the chunks are the start of what the socket
/// had received, and the rest stays there.
pub open spec fn read_out(before: TcpView, chunks: Seq<Seq<u8>>, after: TcpView) -> bool {
    &&& joined(chunks).len() <= before.incoming.len()
    &&& joined(chunks) == before.incoming.take(joined(chunks).len() as int)
    &&& after == before.handed_out(joined(chunks).len())
    &&& forall|i: int| 0 <= i < chunks.len() ==> #[trigger] read_chunk(before, chunks, i)
}

/// Received bytes are neither lost nor doubled, and stay in order: what the
/// channel took, followed by what the socket keeps, is what the socket had.
pub proof fn received_bytes_stay_in_order(
    before: TcpView,
    tx: SenderView<Seq<u8>>,
    after: TcpView,
    next_tx: SenderView<Seq<u8>>,
)
    requires
        handed_over(before, tx, after, next_tx),
    ensures
        joined(channels::sent(tx.news(next_tx))) + after.incoming == before.incoming,
{
    assert(joined(channels::sent(tx.news(next_tx))) + after.incoming =~= before.incoming);
}

/// One round of reading from a socket, with the channel before and after. Since
/// the round before, `arrived` came over the network.
pub ghost struct ReadRound {
    pub arrived: Seq<u8>,
    pub before: TcpView,
    pub tx: SenderView<Seq<u8>>,
    pub after: TcpView,
    pub next_tx: SenderView<Seq<u8>>,
}

/// All that came over the network in these rounds.
pub open spec fn all_arrived(rounds: Seq<ReadRound>) -> Seq<u8>
    decreases rounds.len(),
{
    if rounds.len() == 0 {
        Seq::empty()
    } else {
        all_arrived(rounds.drop_last()) + rounds.last().arrived
    }
}

/// All that the channel took in these rounds.
pub open spec fn all_taken(rounds: Seq<ReadRound>) -> Seq<u8> {
    joined(channels::sent(rounds[0].tx.news(rounds.last().next_tx)))
}

/// The rounds came one after the other, the first on a socket that had received
/// nothing before.
pub open spec fn read_in_turn(rounds: Seq<ReadRound>) -> bool {
    &&& rounds.len() > 0
    &&& rounds[0].before.incoming == rounds[0].arrived
    &&& forall|i: int|
        0 <= i < rounds.len() ==> handed_over(
            (#[trigger] rounds[i]).before,
            rounds[i].tx,
            rounds[i].after,
            rounds[i].next_tx,
        )
    &&& forall|i: int, j: int|
        #![trigger rounds[i], rounds[j]]
        0 <= i < rounds.len() && j == i + 1 && j < rounds.len() ==> rounds[j].before.incoming
            == rounds[i].after.incoming + rounds[j].arrived && rounds[j].tx == rounds[i].next_tx
}

proof fn lemma_joined_sum(a: Seq<Seq<u8>>, b: Seq<Seq<u8>>)
    ensures
        joined(a + b) == joined(a) + joined(b),
    decreases b.len(),
{
    if b.len() == 0 {
        assert(a + b =~= a);
        assert(joined(a) + joined(b) =~= joined(a));
    } else {
        lemma_joined_sum(a, b.drop_last());
        assert((a + b).drop_last() =~= a + b.drop_last());
        assert(joined(a + b) =~= joined(a) + joined(b));
    }
}

/// Over any number of rounds: what the channel took, followed by what the socket
/// keeps, is what came over the network, in order.
pub proof fn rounds_keep_the_received_stream(rounds: Seq<ReadRound>)
    requires
        read_in_turn(rounds),
    ensures
        rounds[0].tx.grows_to(rounds.last().next_tx),
        all_taken(rounds) + rounds.last().after.incoming == all_arrived(rounds),
    decreases rounds.len(),
{
    let init = rounds.drop_last();
    let last = rounds.last();
    assert(rounds[rounds.len() - 1] == last);
    received_bytes_stay_in_order(last.before, last.tx, last.after, last.next_tx);
    if init.len() == 0 {
        assert(all_arrived(init) =~= Seq::<u8>::empty());
        assert(all_arrived(rounds) =~= last.arrived);
    } else {
        assert forall|i: int| 0 <= i < init.len() implies handed_over(
            (#[trigger] init[i]).before,
            init[i].tx,
            init[i].after,
            init[i].next_tx,
        ) by {
            assert(init[i] == rounds[i]);
        }
        assert forall|i: int, j: int|
            #![trigger init[i], init[j]]
            0 <= i < init.len() && j == i + 1 && j < init.len() implies init[j].before.incoming
            == init[i].after.incoming + init[j].arrived && init[j].tx == init[i].next_tx by {
            assert(rounds[i] == init[i] && rounds[j] == init[j]);
        }
        assert(init[0] == rounds[0]);
        rounds_keep_the_received_stream(init);
        assert(rounds[rounds.len() - 2] == init.last());
        assert(last.before.incoming == init.last().after.incoming + last.arrived);
        let first = rounds[0].tx;
        let earlier = first.news(last.tx);
        let now = last.tx.news(last.next_tx);
        assert(first.news(last.next_tx) =~= earlier + now);
        assert(first.history + first.news(last.next_tx) =~= last.next_tx.history);
        channels::lemma_sent_sum(earlier, now);
        lemma_joined_sum(channels::sent(earlier), channels::sent(now));
        assert(all_taken(rounds) + last.after.incoming =~= all_taken(init) + (joined(
            channels::sent(now),
        ) + last.after.incoming));
        assert(all_arrived(rounds) =~= all_taken(init) + (init.last().after.incoming
            + last.arrived));
    }
}

/// The reader is told of the end only once the far end has closed the connection
/// and the channel took all that came over the network.
pub proof fn end_comes_after_all_data(
    rounds: Seq<ReadRound>,
    state: TcpSocketState,
    after: TcpView,
    next: TcpSocketState,
)
    requires
        read_in_turn(rounds),
        tcp_read(rounds.last().after, state, after, next),
        state.read_tx is Some,
        next.read_tx is None,
    ensures
        net::far_end_closed(after.state),
        all_taken(rounds) == all_arrived(rounds),
{
    rounds_keep_the_received_stream(rounds);
    assert(all_taken(rounds) + rounds.last().after.incoming =~= all_taken(rounds));
}

/// Take what the socket has received, up to the size of the buffer.
pub fn take_received(socket: &mut tcp::Socket<'static>) -> (chunk: Option<Vec<u8>>)
    ensures
        ({
            let before = net::tcp_view(*old(socket));
            let after = net::tcp_view(*final(socket));
            match chunk {
                Some(chunk) => {
                    &&& before.incoming.len() > 0
                    &&& chunk@.len() == if before.incoming.len() < TCP_SOCKET_BUFFER_SIZE {
                        before.incoming.len() as int
                    } else {
                        TCP_SOCKET_BUFFER_SIZE as int
                    }
                    &&& chunk@ == before.incoming.take(chunk@.len() as int)
                    &&& after == before.handed_out(chunk@.len())
                },
                None => before.incoming.len() == 0 && after == before,
            }
        }),
{
    let mut buf: Vec<u8> = vec![0u8; TCP_SOCKET_BUFFER_SIZE];
    match net::tcp_recv_slice(socket, &mut buf) {
        Some(n) => {
            if n > 0 {
                buf.truncate(n);
                Some(buf)
            } else {
                proof {
                    let before = net::tcp_view(*old(socket));
                    assert(before.incoming.skip(0) =~= before.incoming);
                }
                None
            }
        },
        None => None,
    }
}

/// The socket after it was given a packet: queued, or dropped where the socket
/// refuses it.
pub open spec fn udp_given(before: UdpView, packet: (Seq<u8>, SocketAddr), after: UdpView) -> bool {
    let peer = Endpoint { ip: packet.1.spec_ip(), port: packet.1.spec_port() };
    &&& after.has_entry == before.has_entry
    &&& match before.send_refusal(peer, packet.0.len()) {
        Some(_) => before.alike(after),
        None => (UdpView {
            outgoing: before.outgoing.push(Packet { peer, data: packet.0 }),
            ..before
        }).alike(after),
    }
}

/// Packet `i` was given to the socket when its queue was not full.
pub open spec fn udp_given_at(
    packets: Seq<(Seq<u8>, SocketAddr)>,
    views: Seq<UdpView>,
    i: int,
) -> bool {
    views[i].takes.contains(0) && udp_given(views[i], packets[i], views[i + 1])
}

/// The socket went through `views` while it was given `packets`, each at a
/// moment when its queue was not full.
pub open spec fn udp_went_through(
    before: UdpView,
    packets: Seq<(Seq<u8>, SocketAddr)>,
    views: Seq<UdpView>,
) -> bool {
    &&& views.len() == packets.len() + 1
    &&& views[0] == before
    &&& forall|i: int|
        0 <= i < packets.len() ==> #[trigger] udp_given_at(packets, views, i)
}

/// How a round of writing ends: when the socket has no more room, or the channel
/// nothing to take. One whose other end is gone closes the socket.
pub open spec fn udp_writing_ended(
    last: UdpView,
    packets: Seq<(Seq<u8>, SocketAddr)>,
    miss: Option<bool>,
    after: UdpView,
) -> bool {
    &&& if miss == Some(true) {
        last.closed(after)
    } else {
        after == last
    }
    &&& if miss is None {
        !last.takes.contains(0) || packets.len() == PULL_BUDGET
    } else {
        last.takes.contains(0)
    }
}

/// The counters after a packet was given to a socket, which may have refused it.
pub open spec fn counts_given(counts: TunnelStatsSnapshot, refused: bool) -> TunnelStatsSnapshot {
    if refused {
        counts.after(Event::UdpSent).after(Event::UdpRefused)
    } else {
        counts.after(Event::UdpSent)
    }
}

/// Whether a socket refuses a packet.
pub open spec fn refuses(view: UdpView, packet: (Seq<u8>, SocketAddr)) -> bool {
    let peer = Endpoint { ip: packet.1.spec_ip(), port: packet.1.spec_port() };
    view.send_refusal(peer, packet.0.len()) is Some
}

/// The counters after the socket went through `views` while it was given
/// `packets`.
pub open spec fn counts_written(
    counts: TunnelStatsSnapshot,
    packets: Seq<(Seq<u8>, SocketAddr)>,
    views: Seq<UdpView>,
) -> TunnelStatsSnapshot
    decreases packets.len(),
{
    if packets.len() == 0 {
        counts
    } else {
        counts_given(
            counts_written(counts, packets.drop_last(), views),
            refuses(views[packets.len() - 1], packets.last()),
        )
    }
}

proof fn lemma_counts_prefix(
    counts: TunnelStatsSnapshot,
    packets: Seq<(Seq<u8>, SocketAddr)>,
    a: Seq<UdpView>,
    b: Seq<UdpView>,
)
    requires
        packets.len() <= a.len(),
        packets.len() <= b.len(),
        forall|i: int| 0 <= i < packets.len() ==> a[i] == #[trigger] b[i],
    ensures
        counts_written(counts, packets, a) == counts_written(counts, packets, b),
    decreases packets.len(),
{
    if packets.len() > 0 {
        lemma_counts_prefix(counts, packets.drop_last(), a, b);
        assert(a[packets.len() - 1] == b[packets.len() - 1]);
    }
}

/// What a round of writing does, and how it is counted.
pub open spec fn udp_wrote(
    before: UdpView,
    packets: Seq<(Seq<u8>, SocketAddr)>,
    miss: Option<bool>,
    after: UdpView,
    counts: TunnelStatsSnapshot,
    next_counts: TunnelStatsSnapshot,
) -> bool {
    exists|views: Seq<UdpView>|
        #![trigger udp_went_through(before, packets, views)]
        udp_went_through(before, packets, views) && udp_writing_ended(
            views.last(),
            packets,
            miss,
            after,
        ) && next_counts == counts_written(counts, packets, views)
}

/// Those of `packets` that the socket did not refuse.
pub open spec fn accepted(views: Seq<UdpView>, packets: Seq<(Seq<u8>, SocketAddr)>) -> Seq<Packet>
    decreases packets.len(),
{
    if packets.len() == 0 {
        Seq::empty()
    } else {
        let rest = accepted(views, packets.drop_last());
        let (data, addr) = packets.last();
        let peer = Endpoint { ip: addr.spec_ip(), port: addr.spec_port() };
        if views[packets.len() - 1].send_refusal(peer, data.len()) is None {
            rest.push(Packet { peer, data })
        } else {
            rest
        }
    }
}

/// Packets are queued whole and in the order in which they were written; only
/// those that the socket refuses are missing.
pub proof fn written_packets_stay_in_order(
    before: UdpView,
    packets: Seq<(Seq<u8>, SocketAddr)>,
    views: Seq<UdpView>,
)
    requires
        udp_went_through(before, packets, views),
    ensures
        views.last().outgoing == before.outgoing + accepted(views, packets),
    decreases packets.len(),
{
    if packets.len() == 0 {
        assert(before.outgoing + accepted(views, packets) =~= before.outgoing);
    } else {
        let init = packets.drop_last();
        let fewer = views.drop_last();
        assert forall|i: int| 0 <= i < init.len() implies #[trigger] udp_given_at(
            init,
            fewer,
            i,
        ) by {
            assert(udp_given_at(packets, views, i));
        }
        written_packets_stay_in_order(before, init, fewer);
        lemma_accepted_prefix(views, fewer, init);
        let last = packets.len() - 1;
        assert(udp_given_at(packets, views, last));
        assert(views.last().outgoing =~= before.outgoing + accepted(views, packets));
    }
}

proof fn lemma_accepted_prefix(
    a: Seq<UdpView>,
    b: Seq<UdpView>,
    packets: Seq<(Seq<u8>, SocketAddr)>,
)
    requires
        packets.len() <= a.len(),
        packets.len() <= b.len(),
        forall|i: int| 0 <= i < packets.len() ==> a[i] == #[trigger] b[i],
    ensures
        accepted(a, packets) == accepted(b, packets),
    decreases packets.len(),
{
    if packets.len() > 0 {
        lemma_accepted_prefix(a, b, packets.drop_last());
        assert(a[packets.len() - 1] == b[packets.len() - 1]);
    }
}

/// Act on what came of asking the channel for a packet, and count it. Says
/// whether to ask again.
pub fn write_pulled_packet(
    socket: &mut udp::Socket<'static>,
    pull: Pull<(Vec<u8>, SocketAddr)>,
    stats: &mut TunnelStats,
) -> (go_on: bool)
    ensures
        go_on == (pull is Item),
        final(stats).counts() == match pull {
            Pull::Item(packet) => counts_given(
                old(stats).counts(),
                refuses(net::udp_view(*old(socket)), (packet.0@, packet.1)),
            ),
            _ => old(stats).counts(),
        },
        match pull {
            Pull::Item(packet) => udp_given(
                net::udp_view(*old(socket)),
                (packet.0@, packet.1),
                net::udp_view(*final(socket)),
            ),
            Pull::Empty => net::udp_view(*final(socket)) == net::udp_view(*old(socket)),
            Pull::Disconnected => net::udp_view(*old(socket)).closed(
                net::udp_view(*final(socket)),
            ),
        },
{
    match pull {
        Pull::Item((data, dest)) => {
            let endpoint = net::socket_addr_to_endpoint(dest);
            stats.record(Event::UdpSent);
            if net::udp_send_slice(socket, &data, endpoint).is_err() {
                stats.record(Event::UdpRefused);
            }
            true
        },
        Pull::Empty => false,
        Pull::Disconnected => {
            net::udp_close(socket);
            false
        },
    }
}

/// Packets went from the channel to the socket.
pub open spec fn udp_written(
    before: UdpView,
    state: UdpSocketState,
    after: UdpView,
    next: UdpSocketState,
    counts: TunnelStatsSnapshot,
    next_counts: TunnelStatsSnapshot,
) -> bool {
    let rx = channels::packet_receiver_view(state.write_rx);
    let next_rx = channels::packet_receiver_view(next.write_rx);
    &&& rx.drains_to(next_rx)
    &&& next.read_tx == state.read_tx
    &&& udp_wrote(
        before,
        channels::taken(rx.news(next_rx)),
        channels::missed(rx.news(next_rx)),
        after,
        counts,
        next_counts,
    )
}

/// Take packets from the channel and give them to the socket.
pub fn process_udp_write(
    socket: &mut udp::Socket<'static>,
    state: &mut UdpSocketState,
    stats: &mut TunnelStats,
)
    ensures
        udp_written(
            net::udp_view(*old(socket)),
            *old(state),
            net::udp_view(*final(socket)),
            *final(state),
            old(stats).counts(),
            final(stats).counts(),
        ),
{
    let ghost rx = channels::packet_receiver_view(state.write_rx);
    let ghost start = net::udp_view(*socket);
    let ghost mut packets: Seq<(Seq<u8>, SocketAddr)> = Seq::empty();
    let ghost mut miss: Option<bool> = None;
    let ghost mut views: Seq<UdpView> = seq![start];
    proof {
        rx.lemma_same();
        assert(channels::draining(packets, miss) =~= rx.news(rx));
        assert(udp_went_through(start, packets, views));
    }
    let mut budget: u64 = PULL_BUDGET;
    let mut running: bool = true;
    while running && budget > 0 && net::udp_can_send(socket)
        invariant
            rx.grows_to(channels::packet_receiver_view(state.write_rx)),
            rx.news(channels::packet_receiver_view(state.write_rx)) == channels::draining(
                packets,
                miss,
            ),
            state.read_tx == old(state).read_tx,
            udp_went_through(start, packets, views),
            stats.counts() == counts_written(old(stats).counts(), packets, views),
            running ==> {
                &&& net::udp_view(*socket) == views.last()
                &&& miss is None
                &&& packets.len() + budget == PULL_BUDGET
            },
            !running ==> udp_writing_ended(views.last(), packets, miss, net::udp_view(*socket)),
        decreases budget,
    {
        budget = budget - 1;
        let ghost half = channels::packet_receiver_view(state.write_rx);
        let pull = channels::try_recv_packet(&mut state.write_rx);
        let ghost pulled = pull;
        running = write_pulled_packet(socket, pull, stats);
        proof {
            if pulled is Item {
                let packet = (pulled->Item_0.0@, pulled->Item_0.1);
                rx.lemma_more(half, Taking::Took(packet));
                channels::lemma_draining_more(packets, packet);
                let more = packets.push(packet);
                let longer = views.push(net::udp_view(*socket));
                assert forall|i: int| 0 <= i < more.len() implies #[trigger] udp_given_at(
                    more,
                    longer,
                    i,
                ) by {
                    assert(longer[i] == views[i]);
                    if i < packets.len() {
                        assert(udp_given_at(packets, views, i));
                    }
                }
                assert(more.drop_last() =~= packets);
                lemma_counts_prefix(old(stats).counts(), packets, views, longer);
                packets = more;
                views = longer;
            } else {
                let gone = pulled is Disconnected;
                rx.lemma_more(half, Taking::Missed(gone));
                miss = Some(gone);
            }
        }
    }
    proof {
        channels::lemma_draining(packets, miss);
    }
}

/// A packet as it goes to the socket's side.
pub open spec fn received_packet(packet: Packet) -> (Seq<u8>, SocketAddr) {
    (packet.data, SocketAddr::spec_new(packet.peer.ip, packet.peer.port))
}

/// The packet fits into the buffer that it is copied to.
pub open spec fn fits(packet: Packet) -> bool {
    packet.data.len() <= UDP_PACKET_BUFFER_SIZE
}

/// The socket without its first `len` packets.
pub open spec fn without_packets(before: UdpView, len: int) -> UdpView {
    UdpView { incoming: before.incoming.skip(len), ..before }
}

/// How a round of reading ends after `len` packets: when no packet is left, when
/// the channel had no place, or when there was a place but a packet that does not
/// fit, or none at all behind the filler in the queue.
pub open spec fn udp_reading_ended(
    before: UdpView,
    len: int,
    last: Option<bool>,
    after: UdpView,
) -> bool {
    match last {
        None => len == before.incoming.len() && without_packets(before, len).alike(after),
        Some(false) => without_packets(before, len).alike(after),
        Some(true) => if len < before.incoming.len() {
            !fits(before.incoming[len]) && without_packets(before, len + 1).alike(after)
        } else {
            without_packets(before, len).alike(after)
        },
    }
}

/// What a round of reading does: the first packets go to the channel, in order
/// and whole.
pub open spec fn udp_read_out(
    before: UdpView,
    packets: Seq<(Seq<u8>, SocketAddr)>,
    last: Option<bool>,
    after: UdpView,
) -> bool {
    &&& handed(before, packets)
    &&& udp_reading_ended(before, packets.len() as int, last, after)
    &&& after.takes == before.takes
}

/// Take the packet that came first.
pub fn take_packet(socket: &mut udp::Socket<'static>) -> (packet: Option<(Vec<u8>, SocketAddr)>)
    ensures
        ({
            let before = net::udp_view(*old(socket));
            let after = net::udp_view(*final(socket));
            &&& after.takes == before.takes
            &&& packet is Some == (before.incoming.len() > 0 && fits(before.incoming[0]))
            &&& packet is Some ==> (packet.unwrap().0@, packet.unwrap().1) == received_packet(
                before.incoming[0],
            )
            &&& without_packets(
                before,
                if before.incoming.len() > 0 {
                    1
                } else {
                    0
                },
            ).alike(after)
        }),
{
    let mut buf: Vec<u8> = vec![0u8; UDP_PACKET_BUFFER_SIZE];
    proof {
        let before = net::udp_view(*socket);
        assert(before.incoming.skip(0) =~= before.incoming);
    }
    match net::udp_recv_slice(socket, &mut buf) {
        Ok((n, endpoint)) => {
            buf.truncate(n);
            let addr = net::endpoint_to_socket_addr(endpoint);
            Some((buf, addr))
        },
        Err(_) => None,
    }
}

/// The packets as they go to the socket's side.
pub open spec fn received_packets(packets: Seq<Packet>) -> Seq<(Seq<u8>, SocketAddr)> {
    packets.map_values(|packet: Packet| received_packet(packet))
}

/// Received packets go to the channel whole and in the order in which they came;
/// at most one is missing, which does not fit into the buffer.
pub proof fn received_packets_stay_in_order(
    before: UdpView,
    packets: Seq<(Seq<u8>, SocketAddr)>,
    last: Option<bool>,
    after: UdpView,
)
    requires
        udp_read_out(before, packets, last, after),
    ensures
        ({
            let len = packets.len() as int;
            ||| packets + received_packets(after.incoming) == received_packets(before.incoming)
            ||| {
                &&& len < before.incoming.len()
                &&& !fits(before.incoming[len])
                &&& packets + received_packets(after.incoming) == received_packets(
                    before.incoming.remove(len),
                )
            }
        }),
{
    let len = packets.len() as int;
    assert forall|i: int| 0 <= i < len implies packets[i] == received_packet(before.incoming[i]) by {
        assert(handed_at(before, packets, i));
    }
    if after.incoming == before.incoming.skip(len) {
        assert(packets + received_packets(after.incoming) =~= received_packets(before.incoming));
    } else {
        assert(packets + received_packets(after.incoming) =~= received_packets(
            before.incoming.remove(len),
        ));
    }
}

/// The counters after `len` packets were handed to the channel.
pub open spec fn counts_read(counts: TunnelStatsSnapshot, len: nat) -> TunnelStatsSnapshot
    decreases len,
{
    if len == 0 {
        counts
    } else {
        counts_read(counts, (len - 1) as nat).after(Event::UdpReceived)
    }
}

/// Packets went from the socket to the channel.
pub open spec fn udp_read(
    before: UdpView,
    state: UdpSocketState,
    after: UdpView,
    next: UdpSocketState,
    counts: TunnelStatsSnapshot,
    next_counts: TunnelStatsSnapshot,
) -> bool {
    &&& next.write_rx == state.write_rx
    &&& if state.read_tx is None {
        next.read_tx is None && after == before && next_counts == counts
    } else {
        let tx = channels::packet_sender_view(state.read_tx->0);
        let next_tx = channels::packet_sender_view(next.read_tx->0);
        &&& next.read_tx is Some
        &&& packets_handed_over(before, tx, after, next_tx, counts, next_counts)
    }
}

/// Packets went from the socket to the channel, each in a place that was reserved
/// for it, and were counted.
pub open spec fn packets_handed_over(
    before: UdpView,
    tx: SenderView<(Seq<u8>, SocketAddr)>,
    after: UdpView,
    next_tx: SenderView<(Seq<u8>, SocketAddr)>,
    counts: TunnelStatsSnapshot,
    next_counts: TunnelStatsSnapshot,
) -> bool {
    let packets = channels::sent(tx.news(next_tx));
    &&& tx.hands_to(next_tx)
    &&& udp_read_out(before, packets, channels::unused(tx.news(next_tx)), after)
    &&& next_counts == counts_read(counts, packets.len())
}

/// Take packets from the socket and hand them to the channel.
pub fn process_udp_read(
    socket: &mut udp::Socket<'static>,
    state: &mut UdpSocketState,
    stats: &mut TunnelStats,
)
    ensures
        udp_read(
            net::udp_view(*old(socket)),
            *old(state),
            net::udp_view(*final(socket)),
            *final(state),
            old(stats).counts(),
            final(stats).counts(),
        ),
{
    match state.read_tx.take() {
        Some(tx) => {
            state.read_tx = Some(hand_over_packets(socket, tx, stats));
        },
        None => {},
    }
}

/// Hand the packets that the socket has received to the channel, as far as that
/// has room.
fn hand_over_packets(
    socket: &mut udp::Socket<'static>,
    tx: Sender<(Vec<u8>, SocketAddr)>,
    stats: &mut TunnelStats,
) -> (next_tx: Sender<(Vec<u8>, SocketAddr)>)
    ensures
        packets_handed_over(
            net::udp_view(*old(socket)),
            channels::packet_sender_view(tx),
            net::udp_view(*final(socket)),
            channels::packet_sender_view(next_tx),
            old(stats).counts(),
            final(stats).counts(),
        ),
{
    let ghost from = channels::packet_sender_view(tx);
    let ghost start = net::udp_view(*socket);
    let ghost mut packets: Seq<(Seq<u8>, SocketAddr)> = Seq::empty();
    let ghost mut last: Option<bool> = None;
    let mut end = tx;
    let mut running: bool = true;
    proof {
        from.lemma_same();
        assert(channels::handing(packets, last) =~= from.news(from));
        assert(start.incoming.skip(0) =~= start.incoming);
    }
    while running && net::udp_can_recv(socket)
        invariant
            from.grows_to(channels::packet_sender_view(end)),
            from.news(channels::packet_sender_view(end)) == channels::handing(packets, last),
            net::udp_view(*socket).takes == start.takes,
            stats.counts() == counts_read(old(stats).counts(), packets.len()),
            handed(start, packets),
            running ==> {
                &&& last is None
                &&& without_packets(start, packets.len() as int).alike(net::udp_view(*socket))
            },
            !running ==> udp_reading_ended(
                start,
                packets.len() as int,
                last,
                net::udp_view(*socket),
            ),
        decreases net::udp_view(*socket).incoming.len(), (if running { 1int } else { 0int }),
    {
        let ghost half = channels::packet_sender_view(end);
        let ghost before = net::udp_view(*socket);
        match channels::reserve_packet(end) {
            Ok(permit) => {
                let ghost asked = channels::packet_permit_view(permit);
                proof {
                    from.lemma_more(half, Sending::Asked(true));
                }
                match take_packet(socket) {
                    Some(received) => {
                        let ghost packet = (received.0@, received.1);
                        end = channels::send_reserved_packet(permit, received);
                        stats.record(Event::UdpReceived);
                        proof {
                            from.lemma_more(asked, Sending::Handed(packet, SendOutcome::Sent));
                            channels::lemma_handing_more(packets, packet);
                            let more = packets.push(packet);
                            assert(before.incoming[0] == start.incoming[packets.len() as int]);
                            assert(before.incoming.skip(1) =~= start.incoming.skip(
                                more.len() as int,
                            ));
                            assert(packet == received_packet(
                                start.incoming[packets.len() as int],
                            ));
                            assert forall|i: int| 0 <= i < more.len() implies handed_at(
                                start,
                                more,
                                i,
                            ) by {
                                if i < packets.len() {
                                    assert(handed_at(start, packets, i));
                                }
                            }
                            packets = more;
                        }
                    },
                    None => {
                        end = channels::release_packet(permit);
                        running = false;
                        proof {
                            let len = packets.len() as int;
                            if before.incoming.len() > 0 {
                                assert(before.incoming[0] == start.incoming[len]);
                                assert(before.incoming.skip(1) =~= start.incoming.skip(len + 1));
                            } else {
                                assert(before.incoming.skip(0) =~= before.incoming);
                            }
                            last = Some(true);
                        }
                    },
                }
            },
            Err(back) => {
                end = back;
                running = false;
                proof {
                    from.lemma_more(half, Sending::Asked(false));
                    last = Some(false);
                }
            },
        }
    }
    proof {
        channels::lemma_handing(packets, last);
    }
    end
}

/// The packets are the first that the socket had received, each of which fits.
pub open spec fn handed(before: UdpView, packets: Seq<(Seq<u8>, SocketAddr)>) -> bool {
    &&& packets.len() <= before.incoming.len()
    &&& forall|i: int| 0 <= i < packets.len() ==> #[trigger] handed_at(before, packets, i)
}

/// Packet `i` is the one that the socket had at this place, and it fits.
pub open spec fn handed_at(before: UdpView, packets: Seq<(Seq<u8>, SocketAddr)>, i: int) -> bool {
    packets[i] == received_packet(before.incoming[i]) && fits(before.incoming[i])
}

/// Whatever the size of the packet that came first, up to 65535 bytes, it is taken
/// whole, with the address that it came from. A larger one is lost. Those behind it
/// stay.
pub proof fn packets_are_taken_whole(
    socket: &mut udp::Socket<'static>,
    packet: Option<(Vec<u8>, SocketAddr)>,
)
    requires
        call_ensures(take_packet, (socket,), packet),
    ensures
        ({
            let was = net::udp_view(*old(socket));
            let now = net::udp_view(*final(socket));
            let first = was.incoming[0];
            &&& was.incoming.len() == 0 ==> packet is None && now.incoming.len() == 0
            &&& was.incoming.len() > 0 ==> now.incoming == was.incoming.skip(1)
            &&& was.incoming.len() > 0 && first.data.len() > 65535 ==> packet is None
            &&& was.incoming.len() > 0 && first.data.len() <= 65535 ==> (packet matches Some(
                (data, addr),
            ) && data@ == first.data && match addr {
                SocketAddr::V4(v4) => first.peer.ip == IpAddr::V4(v4.ip) && first.peer.port
                    == v4.port,
                SocketAddr::V6(v6) => first.peer.ip == IpAddr::V6(v6.ip) && first.peer.port
                    == v6.port,
            })
            &&& now.outgoing == was.outgoing
            &&& now.bound_to == was.bound_to
            &&& now.takes == was.takes
        }),
{
}

proof fn lemma_counts_read(counts: TunnelStatsSnapshot, len: nat)
    ensures
        ({
            let next = counts_read(counts, len);
            &&& next.udp_rx_packets as int == (counts.udp_rx_packets + len)
                % 0x1_0000_0000_0000_0000
            &&& next == (TunnelStatsSnapshot { udp_rx_packets: next.udp_rx_packets, ..counts })
        }),
    decreases len,
{
    if len > 0 {
        lemma_counts_read(counts, (len - 1) as nat);
    }
}

/// Every packet that a UDP socket has queued goes to the channel, in order and
/// whole, whatever its size up to 65535 bytes, as long as the channel has a place
/// for it. What has no place stays in the socket. Only a packet that is larger than
/// that can be lost, at the end of a round.
pub proof fn queued_packets_reach_the_channel(
    socket: &mut udp::Socket<'static>,
    state: &mut UdpSocketState,
    stats: &mut TunnelStats,
)
    requires
        call_ensures(process_udp_read, (socket, state, stats), ()),
        old(state).read_tx is Some,
    ensures
        ({
            let was = net::udp_view(*old(socket)).incoming;
            let now = net::udp_view(*final(socket)).incoming;
            let tx = channels::packet_sender_view(old(state).read_tx->0);
            let next_tx = channels::packet_sender_view(final(state).read_tx->0);
            let news = next_tx.history.skip(tx.history.len() as int);
            let count = news.len() / 2;
            &&& final(state).read_tx is Some
            &&& final(state).write_rx == old(state).write_rx
            &&& next_tx.channel == tx.channel
            &&& next_tx.history.take(tx.history.len() as int) == tx.history
            &&& count <= was.len()
            &&& forall|i: int|
                0 <= i < count ==> {
                    &&& (#[trigger] was[i]).data.len() <= 65535
                    &&& news[2 * i] == Sending::<(Seq<u8>, SocketAddr)>::Asked(true)
                    &&& news[2 * i + 1] matches Sending::Handed((data, addr), outcome) && outcome
                        == SendOutcome::Sent && data == was[i].data && match addr {
                        SocketAddr::V4(v4) => was[i].peer.ip == IpAddr::V4(v4.ip) && was[i].peer.port
                            == v4.port,
                        SocketAddr::V6(v6) => was[i].peer.ip == IpAddr::V6(v6.ip) && was[i].peer.port
                            == v6.port,
                    }
                }
            &&& news.len() % 2 == 0 ==> count == was.len() && now.len() == 0
            &&& news.len() % 2 == 1 ==> (news.last() matches Sending::Asked(room) && {
                &&& !room ==> now == was.skip(count as int)
                &&& room && count < was.len() ==> was[count as int].data.len() > 65535 && now
                    == was.skip(count as int + 1)
                &&& room && count == was.len() ==> now.len() == 0
            })
            &&& net::udp_view(*final(socket)).outgoing == net::udp_view(*old(socket)).outgoing
            &&& net::udp_view(*final(socket)).bound_to == net::udp_view(*old(socket)).bound_to
            &&& final(stats).udp_rx_packets as int == (old(stats).udp_rx_packets + count)
                % 0x1_0000_0000_0000_0000
            &&& final(stats).udp_rx_dropped == old(stats).udp_rx_dropped
            &&& final(stats).udp_tx_packets == old(stats).udp_tx_packets
            &&& final(stats).udp_tx_failed == old(stats).udp_tx_failed
        }),
{
    lemma_packets_told(
        net::udp_view(*old(socket)),
        *old(state),
        net::udp_view(*final(socket)),
        *final(state),
        old(stats).counts(),
        final(stats).counts(),
    );
}

pub(crate) proof fn lemma_packets_told(
    was_socket: UdpView,
    state: UdpSocketState,
    now_socket: UdpView,
    next: UdpSocketState,
    counts: TunnelStatsSnapshot,
    next_counts: TunnelStatsSnapshot,
)
    requires
        udp_read(was_socket, state, now_socket, next, counts, next_counts),
        state.read_tx is Some,
    ensures
        ({
            let was = was_socket.incoming;
            let now = now_socket.incoming;
            let tx = channels::packet_sender_view(state.read_tx->0);
            let next_tx = channels::packet_sender_view(next.read_tx->0);
            let news = next_tx.history.skip(tx.history.len() as int);
            let count = news.len() / 2;
            &&& next.read_tx is Some
            &&& next.write_rx == state.write_rx
            &&& next_tx.channel == tx.channel
            &&& next_tx.history.take(tx.history.len() as int) == tx.history
            &&& count <= was.len()
            &&& forall|i: int|
                0 <= i < count ==> {
                    &&& (#[trigger] was[i]).data.len() <= 65535
                    &&& news[2 * i] == Sending::<(Seq<u8>, SocketAddr)>::Asked(true)
                    &&& news[2 * i + 1] matches Sending::Handed((data, addr), outcome) && outcome
                        == SendOutcome::Sent && data == was[i].data && match addr {
                        SocketAddr::V4(v4) => was[i].peer.ip == IpAddr::V4(v4.ip) && was[i].peer.port
                            == v4.port,
                        SocketAddr::V6(v6) => was[i].peer.ip == IpAddr::V6(v6.ip) && was[i].peer.port
                            == v6.port,
                    }
                }
            &&& news.len() % 2 == 0 ==> count == was.len() && now.len() == 0
            &&& news.len() % 2 == 1 ==> (news.last() matches Sending::Asked(room) && {
                &&& !room ==> now == was.skip(count as int)
                &&& room && count < was.len() ==> was[count as int].data.len() > 65535 && now
                    == was.skip(count as int + 1)
                &&& room && count == was.len() ==> now.len() == 0
            })
            &&& now_socket.outgoing == was_socket.outgoing
            &&& now_socket.bound_to == was_socket.bound_to
            &&& next_counts.udp_rx_packets as int == (counts.udp_rx_packets + count)
                % 0x1_0000_0000_0000_0000
            &&& next_counts.udp_rx_dropped == counts.udp_rx_dropped
            &&& next_counts.udp_tx_packets == counts.udp_tx_packets
            &&& next_counts.udp_tx_failed == counts.udp_tx_failed
        }),
{
    let before = was_socket;
    let was = before.incoming;
    let tx = channels::packet_sender_view(state.read_tx->0);
    let next_tx = channels::packet_sender_view(next.read_tx->0);
    let news = next_tx.history.skip(tx.history.len() as int);
    let packets = channels::sent(tx.news(next_tx));
    channels::lemma_handing_steps(packets, channels::unused(tx.news(next_tx)));
    lemma_counts_read(counts, packets.len());
    assert(next_tx.history.take(tx.history.len() as int) =~= tx.history);
    assert forall|i: int| 0 <= i < packets.len() implies {
        &&& (#[trigger] was[i]).data.len() <= 65535
        &&& news[2 * i] == Sending::<(Seq<u8>, SocketAddr)>::Asked(true)
        &&& news[2 * i + 1] == Sending::Handed(received_packet(was[i]), SendOutcome::Sent)
    } by {
        assert(handed_at(before, packets, i));
        assert(packets[i] == received_packet(was[i]));
    }
}

/// No packet of up to 65535 bytes is lost where the channel has a place whenever it
/// is asked: all that were queued are handed over.
pub proof fn no_packet_is_lost(
    socket: &mut udp::Socket<'static>,
    state: &mut UdpSocketState,
    stats: &mut TunnelStats,
    i: int,
)
    requires
        call_ensures(process_udp_read, (socket, state, stats), ()),
        old(state).read_tx is Some,
        forall|j: int|
            0 <= j < net::udp_view(*old(socket)).incoming.len() ==> (#[trigger] net::udp_view(
                *old(socket),
            ).incoming[j]).data.len() <= 65535,
        0 <= i < net::udp_view(*old(socket)).incoming.len(),
    ensures
        ({
            let was = net::udp_view(*old(socket)).incoming;
            let now = net::udp_view(*final(socket)).incoming;
            let tx = channels::packet_sender_view(old(state).read_tx->0);
            let next_tx = channels::packet_sender_view(final(state).read_tx->0);
            let news = next_tx.history.skip(tx.history.len() as int);
            &&& now.contains(was[i]) || (news[2 * i + 1] matches Sending::Handed(
                (data, _),
                outcome,
            ) && outcome == SendOutcome::Sent && data == was[i].data)
            &&& now.len() > 0 ==> news.last() == Sending::<(Seq<u8>, SocketAddr)>::Asked(false)
        }),
{
    queued_packets_reach_the_channel(socket, state, stats);
    let was = net::udp_view(*old(socket)).incoming;
    let now = net::udp_view(*final(socket)).incoming;
    let tx = channels::packet_sender_view(old(state).read_tx->0);
    let next_tx = channels::packet_sender_view(final(state).read_tx->0);
    let news = next_tx.history.skip(tx.history.len() as int);
    let count = news.len() / 2;
    if i >= count {
        assert(now[i - count] == was[i]);
    } else {
        assert(was[i].data.len() <= 65535);
    }
}

/// What is taken out of a TCP socket is the start of what it has received: all of
/// it, up to 65535 bytes. The rest stays.
pub proof fn received_bytes_are_taken_from_the_front(
    socket: &mut tcp::Socket<'static>,
    chunk: Option<Vec<u8>>,
)
    requires
        call_ensures(take_received, (socket,), chunk),
    ensures
        ({
            let was = net::tcp_view(*old(socket));
            let now = net::tcp_view(*final(socket));
            &&& chunk is Some <==> was.incoming.len() > 0
            &&& chunk matches Some(chunk) ==> {
                &&& chunk@ + now.incoming == was.incoming
                &&& was.incoming.len() <= 65535 ==> chunk@ == was.incoming
                &&& was.incoming.len() > 65535 ==> chunk@.len() == 65535
            }
            &&& chunk is None ==> now.incoming == was.incoming
            &&& now.state == was.state
            &&& now.tuple == was.tuple
            &&& now.outgoing == was.outgoing
        }),
{
    let was = net::tcp_view(*old(socket));
    let now = net::tcp_view(*final(socket));
    match chunk {
        Some(chunk) => {
            assert(chunk@ + now.incoming =~= was.incoming);
            assert(was.incoming.take(was.incoming.len() as int) =~= was.incoming);
        },
        None => {},
    }
}

proof fn lemma_joined_is_flat(chunks: Seq<Seq<u8>>)
    ensures
        joined(chunks) == chunks.flatten(),
    decreases chunks.len(),
{
    chunks.lemma_flatten_and_flatten_alt_are_equivalent();
    if chunks.len() > 0 {
        let init = chunks.drop_last();
        lemma_joined_is_flat(init);
        init.lemma_flatten_and_flatten_alt_are_equivalent();
    }
}

/// What a TCP socket has received goes to the channel byte by byte, in order: what
/// is handed over, followed by what stays, is what there was. As long as the
/// channel has a place, nothing stays. No chunk is empty or larger than 65535
/// bytes. The channel is given up only where nothing more can come and all was
/// handed over.
pub proof fn received_bytes_reach_the_channel(
    socket: &mut tcp::Socket<'static>,
    state: &mut TcpSocketState,
)
    requires
        call_ensures(process_tcp_read, (socket, state), ()),
    ensures
        ({
            let was = net::tcp_view(*old(socket));
            let now = net::tcp_view(*final(socket));
            let over = was.incoming.len() == 0 && (was.state == TcpState::CloseWait || was.state
                == TcpState::Closing || was.state == TcpState::LastAck || was.state
                == TcpState::TimeWait || was.state == TcpState::Closed);
            let tx = channels::sender_view(old(state).read_tx->0);
            let next_tx = channels::sender_view(final(state).read_tx->0);
            let news = next_tx.history.skip(tx.history.len() as int);
            let chunks = Seq::new(news.len() / 2, |i: int| news[2 * i + 1]->Handed_0);
            &&& final(state).write_rx == old(state).write_rx
            &&& final(state).pending_write == old(state).pending_write
            &&& now.state == was.state
            &&& now.tuple == was.tuple
            &&& now.outgoing == was.outgoing
            &&& final(state).read_tx is Some <==> old(state).read_tx is Some && !over
            &&& final(state).read_tx is None ==> now.incoming == was.incoming
            &&& final(state).read_tx is Some ==> {
                &&& next_tx.channel == tx.channel
                &&& next_tx.history.take(tx.history.len() as int) == tx.history
                &&& forall|i: int|
                    0 <= i < chunks.len() ==> {
                        &&& news[2 * i] == Sending::<Seq<u8>>::Asked(true)
                        &&& news[2 * i + 1] == Sending::Handed(
                            #[trigger] chunks[i],
                            SendOutcome::Sent,
                        )
                        &&& 0 < chunks[i].len() <= 65535
                    }
                &&& chunks.flatten() + now.incoming == was.incoming
                &&& now.incoming.len() == 0 ==> news.len() == 2 * chunks.len()
                &&& now.incoming.len() > 0 ==> news.len() == 2 * chunks.len() + 1 && news.last()
                    == Sending::<Seq<u8>>::Asked(false)
                &&& 0 < was.incoming.len() <= 65535 && chunks.len() > 0 ==> chunks.len() == 1
                &&& forall|i: int|
                    0 <= i < chunks.len() && ((#[trigger] chunks[i]).len() != 65535) ==> i
                        == chunks.len() - 1 && now.incoming.len() == 0
            }
        }),
{
    lemma_read_told(
        net::tcp_view(*old(socket)),
        *old(state),
        net::tcp_view(*final(socket)),
        *final(state),
    );
}

pub(crate) proof fn lemma_read_told(
    was: TcpView,
    state: TcpSocketState,
    now: TcpView,
    next: TcpSocketState,
)
    requires
        tcp_read(was, state, now, next),
    ensures
        ({
            let over = was.incoming.len() == 0 && (was.state == TcpState::CloseWait || was.state
                == TcpState::Closing || was.state == TcpState::LastAck || was.state
                == TcpState::TimeWait || was.state == TcpState::Closed);
            let tx = channels::sender_view(state.read_tx->0);
            let next_tx = channels::sender_view(next.read_tx->0);
            let news = next_tx.history.skip(tx.history.len() as int);
            let chunks = Seq::new(news.len() / 2, |i: int| news[2 * i + 1]->Handed_0);
            &&& next.write_rx == state.write_rx
            &&& next.pending_write == state.pending_write
            &&& now.state == was.state
            &&& now.tuple == was.tuple
            &&& now.outgoing == was.outgoing
            &&& next.read_tx is Some <==> state.read_tx is Some && !over
            &&& next.read_tx is None ==> now.incoming == was.incoming
            &&& next.read_tx is Some ==> {
                &&& next_tx.channel == tx.channel
                &&& next_tx.history.take(tx.history.len() as int) == tx.history
                &&& forall|i: int|
                    0 <= i < chunks.len() ==> {
                        &&& news[2 * i] == Sending::<Seq<u8>>::Asked(true)
                        &&& news[2 * i + 1] == Sending::Handed(
                            #[trigger] chunks[i],
                            SendOutcome::Sent,
                        )
                        &&& 0 < chunks[i].len() <= 65535
                    }
                &&& chunks.flatten() + now.incoming == was.incoming
                &&& now.incoming.len() == 0 ==> news.len() == 2 * chunks.len()
                &&& now.incoming.len() > 0 ==> news.len() == 2 * chunks.len() + 1 && news.last()
                    == Sending::<Seq<u8>>::Asked(false)
                &&& 0 < was.incoming.len() <= 65535 && chunks.len() > 0 ==> chunks.len() == 1
                &&& forall|i: int|
                    0 <= i < chunks.len() && ((#[trigger] chunks[i]).len() != 65535) ==> i
                        == chunks.len() - 1 && now.incoming.len() == 0
            }
        }),
{
    if next.read_tx is Some {
        let tx = channels::sender_view(state.read_tx->0);
        let next_tx = channels::sender_view(next.read_tx->0);
        let news = next_tx.history.skip(tx.history.len() as int);
        let pieces = channels::sent(tx.news(next_tx));
        let chunks = Seq::new(news.len() / 2, |i: int| news[2 * i + 1]->Handed_0);
        channels::lemma_handing_steps(pieces, channels::unused(tx.news(next_tx)));
        assert(next_tx.history.take(tx.history.len() as int) =~= tx.history);
        assert forall|i: int| 0 <= i < chunks.len() implies #[trigger] chunks[i] == pieces[i] by {
            assert(news[2 * i + 1] == Sending::Handed(pieces[i], SendOutcome::Sent));
        }
        assert(chunks =~= pieces);
        assert forall|i: int| 0 <= i < chunks.len() implies {
            &&& news[2 * i] == Sending::<Seq<u8>>::Asked(true)
            &&& news[2 * i + 1] == Sending::Handed(#[trigger] chunks[i], SendOutcome::Sent)
            &&& 0 < chunks[i].len() <= 65535
        } by {
            assert(read_chunk(was, pieces, i));
        }
        lemma_joined_is_flat(pieces);
        received_bytes_stay_in_order(was, tx, now, next_tx);
        assert forall|i: int|
            0 <= i < chunks.len() && ((#[trigger] chunks[i]).len() != 65535) implies i
            == chunks.len() - 1 && now.incoming.len() == 0 by {
            assert(read_chunk(was, pieces, i));
            assert(pieces.take(i + 1).drop_last() =~= pieces.take(i));
            assert(pieces.take(i + 1).last() == pieces[i]);
            if i + 1 < pieces.len() {
                assert(read_chunk(was, pieces, i + 1));
            } else {
                assert(pieces.take(i + 1) =~= pieces);
            }
        }
        if 0 < was.incoming.len() <= 65535 && chunks.len() > 1 {
            assert(read_chunk(was, pieces, 0));
            assert(read_chunk(was, pieces, 1));
            assert(pieces.take(0) =~= Seq::<Seq<u8>>::empty());
            assert(pieces.take(1).drop_last() =~= Seq::<Seq<u8>>::empty());
            assert(joined(pieces.take(1)) =~= pieces[0]);
        }
    }
}

/// A socket takes what it has room for of what was left of an earlier chunk; what
/// it does not take is left again. There is room for more only where all was taken.
pub proof fn what_was_left_comes_first(
    socket: &mut tcp::Socket<'static>,
    pending: Option<Vec<u8>>,
    outcome: (Option<Vec<u8>>, bool),
)
    requires
        call_ensures(flush_pending, (socket, pending), outcome),
    ensures
        ({
            let was = net::tcp_view(*old(socket));
            let now = net::tcp_view(*final(socket));
            let open = was.state == TcpState::Established || was.state == TcpState::CloseWait;
            &&& outcome.1 <==> outcome.0 is None
            &&& pending is None ==> outcome.0 is None && now == was
            &&& pending matches Some(data) ==> {
                &&& !open ==> now == was && (outcome.0 matches Some(left) && left@ == data@)
                &&& outcome.0 matches Some(left) ==> now.outgoing + left@ == was.outgoing + data@
                &&& outcome.0 is None ==> now.outgoing == was.outgoing + data@
                &&& open ==> (outcome.0 matches Some(left) ==> left@.len() > 0
                    && now.outgoing.len() >= now.send_capacity)
            }
            &&& now.state == was.state
            &&& now.tuple == was.tuple
            &&& now.incoming == was.incoming
            &&& now.send_capacity == was.send_capacity
            &&& was.outgoing.len() <= was.send_capacity ==> now.outgoing.len() <= was.send_capacity
        }),
{
    let was = net::tcp_view(*old(socket));
    let now = net::tcp_view(*final(socket));
    match pending {
        Some(data) => {
            let n = was.taken(data@.len()) as int;
            match outcome.0 {
                Some(left) => {
                    assert(now.outgoing + left@ =~= was.outgoing + data@);
                },
                None => {
                    assert(data@.take(n) =~= data@);
                },
            }
        },
        None => {},
    }
}

/// A chunk from the channel goes to the socket as far as that has room, and the
/// rest is left. A channel whose other end is gone closes the sending half; one
/// that is empty changes nothing.
pub proof fn chunks_go_to_the_socket(
    socket: &mut tcp::Socket<'static>,
    pull: Pull<Vec<u8>>,
    outcome: (Option<Vec<u8>>, bool),
)
    requires
        call_ensures(write_pulled, (socket, pull), outcome),
    ensures
        ({
            let was = net::tcp_view(*old(socket));
            let now = net::tcp_view(*final(socket));
            let open = was.state == TcpState::Established || was.state == TcpState::CloseWait;
            &&& match pull {
                Pull::Item(chunk) => {
                    &&& now.state == was.state
                    &&& !open ==> now == was && outcome.0 is None && !outcome.1
                    &&& open ==> outcome.1 == (outcome.0 is None)
                    &&& open ==> match outcome.0 {
                        Some(left) => now.outgoing + left@ == was.outgoing + chunk@ && left@.len()
                            > 0 && now.outgoing.len() >= now.send_capacity,
                        None => now.outgoing == was.outgoing + chunk@,
                    }
                },
                Pull::Empty => now == was && outcome.0 is None && !outcome.1,
                Pull::Disconnected => {
                    &&& outcome.0 is None && !outcome.1
                    &&& now.outgoing == was.outgoing
                    &&& was.state == TcpState::Established ==> now.state == TcpState::FinWait1
                    &&& was.state == TcpState::CloseWait ==> now.state == TcpState::LastAck
                },
            }
            &&& now.tuple == was.tuple
            &&& now.incoming == was.incoming
            &&& now.send_capacity == was.send_capacity
        }),
{
    let was = net::tcp_view(*old(socket));
    let now = net::tcp_view(*final(socket));
    match pull {
        Pull::Item(chunk) => {
            let n = was.taken(chunk@.len()) as int;
            match outcome.0 {
                Some(left) => {
                    assert(now.outgoing + left@ =~= was.outgoing + chunk@);
                },
                None => {
                    if was.may_send() {
                        assert(chunk@.take(n) =~= chunk@);
                    }
                },
            }
        },
        _ => {},
    }
}

proof fn lemma_fed_room(start: TcpView, chunks: Seq<Seq<u8>>)
    requires
        start.outgoing.len() <= start.send_capacity,
    ensures
        fed(start, chunks).outgoing.len() <= start.send_capacity,
    decreases chunks.len(),
{
    lemma_fed_rest(start, chunks);
    if chunks.len() > 0 {
        lemma_fed_room(start, chunks.drop_last());
        lemma_fed_rest(start, chunks.drop_last());
    }
}

/// What is written to a TCP socket's channel goes to the socket byte by byte, in
/// order: what the socket holds for sending, followed by what is left of a chunk,
/// grows by just the chunks that were taken. That goes on until the channel has
/// nothing more or the socket no more room. Where the channel's other end is gone,
/// the sending half is closed, and nowhere else.
pub proof fn written_bytes_reach_the_socket(
    socket: &mut tcp::Socket<'static>,
    state: &mut TcpSocketState,
)
    requires
        call_ensures(process_tcp_write, (socket, state), ()),
    ensures
        ({
            let was = net::tcp_view(*old(socket));
            let now = net::tcp_view(*final(socket));
            let open = was.state == TcpState::Established || was.state == TcpState::CloseWait;
            let rx = channels::receiver_view(old(state).write_rx);
            let next_rx = channels::receiver_view(final(state).write_rx);
            let news = next_rx.history.skip(rx.history.len() as int);
            let dry = news.len() > 0 && news.last() is Missed;
            let count = if dry {
                news.len() - 1
            } else {
                news.len() as int
            };
            let chunks = Seq::new(count as nat, |i: int| news[i]->Took_0);
            let pending = match old(state).pending_write {
                Some(data) => data@,
                None => Seq::empty(),
            };
            let left = match final(state).pending_write {
                Some(data) => data@,
                None => Seq::empty(),
            };
            &&& next_rx.channel == rx.channel
            &&& next_rx.history.take(rx.history.len() as int) == rx.history
            &&& final(state).read_tx == old(state).read_tx
            &&& forall|i: int| 0 <= i < count ==> #[trigger] news[i] is Took
            &&& now.outgoing + left == was.outgoing + pending + chunks.flatten()
            &&& was.outgoing.len() <= was.send_capacity ==> now.outgoing.len() <= was.send_capacity
            &&& dry || !open || now.outgoing.len() >= was.send_capacity || count == u64::MAX
            &&& final(state).pending_write is Some && open ==> now.outgoing.len()
                >= was.send_capacity
            &&& !open ==> news.len() == 0 && now == was
            &&& dry && news.last()->Missed_0 ==> {
                &&& was.state == TcpState::Established ==> now.state == TcpState::FinWait1
                &&& was.state == TcpState::CloseWait ==> now.state == TcpState::LastAck
            }
            &&& !(dry && news.last()->Missed_0) ==> now.state == was.state
            &&& now.tuple == was.tuple
            &&& now.incoming == was.incoming
            &&& now.send_capacity == was.send_capacity
        }),
{
    lemma_written_told(
        net::tcp_view(*old(socket)),
        *old(state),
        net::tcp_view(*final(socket)),
        *final(state),
    );
}

pub(crate) proof fn lemma_written_told(
    was: TcpView,
    state: TcpSocketState,
    now: TcpView,
    next: TcpSocketState,
)
    requires
        tcp_written(was, state, now, next),
    ensures
        ({
            let open = was.state == TcpState::Established || was.state == TcpState::CloseWait;
            let rx = channels::receiver_view(state.write_rx);
            let next_rx = channels::receiver_view(next.write_rx);
            let news = next_rx.history.skip(rx.history.len() as int);
            let dry = news.len() > 0 && news.last() is Missed;
            let count = if dry {
                news.len() - 1
            } else {
                news.len() as int
            };
            let chunks = Seq::new(count as nat, |i: int| news[i]->Took_0);
            let pending = match state.pending_write {
                Some(data) => data@,
                None => Seq::empty(),
            };
            let left = match next.pending_write {
                Some(data) => data@,
                None => Seq::empty(),
            };
            &&& next_rx.channel == rx.channel
            &&& next_rx.history.take(rx.history.len() as int) == rx.history
            &&& next.read_tx == state.read_tx
            &&& forall|i: int| 0 <= i < count ==> #[trigger] news[i] is Took
            &&& now.outgoing + left == was.outgoing + pending + chunks.flatten()
            &&& was.outgoing.len() <= was.send_capacity ==> now.outgoing.len() <= was.send_capacity
            &&& dry || !open || now.outgoing.len() >= was.send_capacity || count == u64::MAX
            &&& next.pending_write is Some && open ==> now.outgoing.len()
                >= was.send_capacity
            &&& !open ==> news.len() == 0 && now == was
            &&& dry && news.last()->Missed_0 ==> {
                &&& was.state == TcpState::Established ==> now.state == TcpState::FinWait1
                &&& was.state == TcpState::CloseWait ==> now.state == TcpState::LastAck
            }
            &&& !(dry && news.last()->Missed_0) ==> now.state == was.state
            &&& now.tuple == was.tuple
            &&& now.incoming == was.incoming
            &&& now.send_capacity == was.send_capacity
        }),
{
    let rx = channels::receiver_view(state.write_rx);
    let next_rx = channels::receiver_view(next.write_rx);
    let news = next_rx.history.skip(rx.history.len() as int);
    let pieces = channels::taken(rx.news(next_rx));
    let miss = channels::missed(rx.news(next_rx));
    let dry = news.len() > 0 && news.last() is Missed;
    let count = if dry {
        news.len() - 1
    } else {
        news.len() as int
    };
    assert(next_rx.history.take(rx.history.len() as int) =~= rx.history);
    assert(news.len() == pieces.len() + if miss is Some {
        1int
    } else {
        0int
    });
    assert forall|i: int| 0 <= i < pieces.len() implies #[trigger] news[i] == Taking::Took(
        pieces[i],
    ) by {}
    assert(dry == miss is Some);
    let chunks = Seq::new(count as nat, |i: int| news[i]->Took_0);
    assert forall|i: int| 0 <= i < chunks.len() implies #[trigger] chunks[i] == pieces[i] by {
        assert(news[i] == Taking::Took(pieces[i]));
    }
    assert(chunks =~= pieces);
    lemma_joined_is_flat(pieces);
    written_bytes_stay_in_order(
        was,
        kept(state.pending_write),
        pieces,
        miss,
        now,
        kept(next.pending_write),
    );
    let start = match kept(state.pending_write) {
        Some(data) => was.sending(data),
        None => was,
    };
    lemma_fed_rest(start, pieces);
    if pieces.len() > 0 {
        lemma_fed_rest(start, pieces.drop_last());
        assert(was_fed(start, pieces, 0));
        assert(pieces.take(0) =~= Seq::<Seq<u8>>::empty());
    }
    if was.outgoing.len() <= was.send_capacity {
        lemma_fed_room(start, pieces);
    }
}

/// A packet from the channel is queued whole, for the address that it is for. It
/// is dropped only where the socket is not bound, the address is no destination, or
/// the queue has no room for it. Every packet is counted, and so is every one that
/// was dropped. A channel whose other end is gone closes the socket.
pub proof fn packets_go_to_the_socket(
    socket: &mut udp::Socket<'static>,
    pull: Pull<(Vec<u8>, SocketAddr)>,
    stats: &mut TunnelStats,
    go_on: bool,
)
    requires
        call_ensures(write_pulled_packet, (socket, pull, stats), go_on),
    ensures
        ({
            let was = net::udp_view(*old(socket));
            let now = net::udp_view(*final(socket));
            &&& go_on <==> pull is Item
            &&& match pull {
                Pull::Item((data, addr)) => {
                    let (ip, port) = match addr {
                        SocketAddr::V4(v4) => (IpAddr::V4(v4.ip), v4.port),
                        SocketAddr::V6(v6) => (IpAddr::V6(v6.ip), v6.port),
                    };
                    let nowhere = match ip {
                        IpAddr::V4(v4) => v4.bits == 0,
                        IpAddr::V6(v6) => v6.bits == 0,
                    };
                    let refused = was.bound_to.port == 0 || nowhere || port == 0
                        || !was.takes.contains(data@.len());
                    &&& refused ==> now.outgoing == was.outgoing
                    &&& !refused ==> now.outgoing == was.outgoing.push(
                        Packet { peer: Endpoint { ip, port }, data: data@ },
                    )
                    &&& now.incoming == was.incoming
                    &&& now.bound_to == was.bound_to
                    &&& final(stats).udp_tx_packets == if old(stats).udp_tx_packets == u64::MAX {
                        0
                    } else {
                        old(stats).udp_tx_packets + 1
                    }
                    &&& !refused ==> final(stats).udp_tx_failed == old(stats).udp_tx_failed
                    &&& refused ==> final(stats).udp_tx_failed == if old(stats).udp_tx_failed
                        == u64::MAX {
                        0
                    } else {
                        old(stats).udp_tx_failed + 1
                    }
                },
                Pull::Empty => now == was && final(stats).counts() == old(stats).counts(),
                Pull::Disconnected => {
                    &&& now.bound_to.port == 0
                    &&& now.outgoing.len() == 0 && now.incoming.len() == 0
                    &&& final(stats).counts() == old(stats).counts()
                },
            }
            &&& final(stats).udp_rx_packets == old(stats).udp_rx_packets
            &&& final(stats).udp_rx_dropped == old(stats).udp_rx_dropped
            &&& final(stats).device_tx_frames == old(stats).device_tx_frames
            &&& final(stats).device_rx_frames == old(stats).device_rx_frames
        }),
{
}

/// The packets of a UDP socket's channel are given to the socket one after the
/// other, until the channel has nothing more or the socket no more room: each is
/// queued whole for its destination, or dropped where the socket cannot take it.
pub proof fn written_packets_reach_the_socket(
    socket: &mut udp::Socket<'static>,
    state: &mut UdpSocketState,
    stats: &mut TunnelStats,
)
    requires
        call_ensures(process_udp_write, (socket, state, stats), ()),
    ensures
        ({
            let was = net::udp_view(*old(socket));
            let now = net::udp_view(*final(socket));
            let rx = channels::packet_receiver_view(old(state).write_rx);
            let next_rx = channels::packet_receiver_view(final(state).write_rx);
            let news = next_rx.history.skip(rx.history.len() as int);
            let dry = news.len() > 0 && news.last() is Missed;
            let count = if dry {
                news.len() - 1
            } else {
                news.len() as int
            };
            &&& next_rx.channel == rx.channel
            &&& next_rx.history.take(rx.history.len() as int) == rx.history
            &&& final(state).read_tx == old(state).read_tx
            &&& final(stats).udp_tx_packets as int == (old(stats).udp_tx_packets + count)
                % 0x1_0000_0000_0000_0000
            &&& final(stats).udp_rx_packets == old(stats).udp_rx_packets
            &&& exists|views: Seq<UdpView>|
                #![trigger views.last()]
                {
                    &&& views.len() == count + 1
                    &&& views[0] == was
                    &&& forall|i: int|
                        0 <= i < count ==> (#[trigger] news[i] matches Taking::Took((data, addr)) && {
                            let (ip, port) = match addr {
                                SocketAddr::V4(v4) => (IpAddr::V4(v4.ip), v4.port),
                                SocketAddr::V6(v6) => (IpAddr::V6(v6.ip), v6.port),
                            };
                            let nowhere = match ip {
                                IpAddr::V4(v4) => v4.bits == 0,
                                IpAddr::V6(v6) => v6.bits == 0,
                            };
                            &&& views[i].takes.contains(0)
                            &&& views[i + 1].incoming == was.incoming
                            &&& views[i + 1].bound_to == was.bound_to
                            &&& views[i + 1].outgoing == if was.bound_to.port == 0 || nowhere
                                || port == 0 || !views[i].takes.contains(data.len()) {
                                views[i].outgoing
                            } else {
                                views[i].outgoing.push(
                                    Packet { peer: Endpoint { ip, port }, data },
                                )
                            }
                        })
                    &&& dry || !views.last().takes.contains(0) || count == u64::MAX
                    &&& dry && news.last()->Missed_0 ==> now.bound_to.port == 0
                        && now.outgoing.len() == 0 && now.incoming.len() == 0
                    &&& !(dry && news.last()->Missed_0) ==> now == views.last()
                }
        }),
{
    lemma_packets_written_told(
        net::udp_view(*old(socket)),
        *old(state),
        net::udp_view(*final(socket)),
        *final(state),
        old(stats).counts(),
        final(stats).counts(),
    );
}

pub(crate) proof fn lemma_packets_written_told(
    was_socket: UdpView,
    state: UdpSocketState,
    now_socket: UdpView,
    next: UdpSocketState,
    counts: TunnelStatsSnapshot,
    next_counts: TunnelStatsSnapshot,
)
    requires
        udp_written(was_socket, state, now_socket, next, counts, next_counts),
    ensures
        ({
            let was = was_socket;
            let now = now_socket;
            let rx = channels::packet_receiver_view(state.write_rx);
            let next_rx = channels::packet_receiver_view(next.write_rx);
            let news = next_rx.history.skip(rx.history.len() as int);
            let dry = news.len() > 0 && news.last() is Missed;
            let count = if dry {
                news.len() - 1
            } else {
                news.len() as int
            };
            &&& next_rx.channel == rx.channel
            &&& next_rx.history.take(rx.history.len() as int) == rx.history
            &&& next.read_tx == state.read_tx
            &&& next_counts.udp_tx_packets as int == (counts.udp_tx_packets + count)
                % 0x1_0000_0000_0000_0000
            &&& next_counts.udp_rx_packets == counts.udp_rx_packets
            &&& exists|views: Seq<UdpView>|
                #![trigger views.last()]
                {
                    &&& views.len() == count + 1
                    &&& views[0] == was
                    &&& forall|i: int|
                        0 <= i < count ==> (#[trigger] news[i] matches Taking::Took((data, addr)) && {
                            let (ip, port) = match addr {
                                SocketAddr::V4(v4) => (IpAddr::V4(v4.ip), v4.port),
                                SocketAddr::V6(v6) => (IpAddr::V6(v6.ip), v6.port),
                            };
                            let nowhere = match ip {
                                IpAddr::V4(v4) => v4.bits == 0,
                                IpAddr::V6(v6) => v6.bits == 0,
                            };
                            &&& views[i].takes.contains(0)
                            &&& views[i + 1].incoming == was.incoming
                            &&& views[i + 1].bound_to == was.bound_to
                            &&& views[i + 1].outgoing == if was.bound_to.port == 0 || nowhere
                                || port == 0 || !views[i].takes.contains(data.len()) {
                                views[i].outgoing
                            } else {
                                views[i].outgoing.push(
                                    Packet { peer: Endpoint { ip, port }, data },
                                )
                            }
                        })
                    &&& dry || !views.last().takes.contains(0) || count == u64::MAX
                    &&& dry && news.last()->Missed_0 ==> now.bound_to.port == 0
                        && now.outgoing.len() == 0 && now.incoming.len() == 0
                    &&& !(dry && news.last()->Missed_0) ==> now == views.last()
                }
        }),
{
    let rx = channels::packet_receiver_view(state.write_rx);
    let next_rx = channels::packet_receiver_view(next.write_rx);
    let news = rx.news(next_rx);
    assert(next_rx.history.take(rx.history.len() as int) =~= rx.history);
    lemma_wrote_steps(was_socket, news, now_socket, counts, next_counts);
}

proof fn lemma_wrote_steps(
    was: UdpView,
    news: Seq<Taking<(Seq<u8>, SocketAddr)>>,
    now: UdpView,
    counts: TunnelStatsSnapshot,
    next_counts: TunnelStatsSnapshot,
)
    requires
        news == channels::draining(channels::taken(news), channels::missed(news)),
        udp_wrote(was, channels::taken(news), channels::missed(news), now, counts, next_counts),
    ensures
        ({
            let dry = news.len() > 0 && news.last() is Missed;
            let count = if dry {
                news.len() - 1
            } else {
                news.len() as int
            };
            &&& next_counts.udp_tx_packets as int == (counts.udp_tx_packets + count)
                % 0x1_0000_0000_0000_0000
            &&& next_counts.udp_rx_packets == counts.udp_rx_packets
            &&& exists|views: Seq<UdpView>|
                #![trigger views.last()]
                {
                    &&& views.len() == count + 1
                    &&& views[0] == was
                    &&& forall|i: int|
                        0 <= i < count ==> (#[trigger] news[i] matches Taking::Took((data, addr)) && {
                            let (ip, port) = match addr {
                                SocketAddr::V4(v4) => (IpAddr::V4(v4.ip), v4.port),
                                SocketAddr::V6(v6) => (IpAddr::V6(v6.ip), v6.port),
                            };
                            let nowhere = match ip {
                                IpAddr::V4(v4) => v4.bits == 0,
                                IpAddr::V6(v6) => v6.bits == 0,
                            };
                            &&& views[i].takes.contains(0)
                            &&& views[i + 1].incoming == was.incoming
                            &&& views[i + 1].bound_to == was.bound_to
                            &&& views[i + 1].outgoing == if was.bound_to.port == 0 || nowhere
                                || port == 0 || !views[i].takes.contains(data.len()) {
                                views[i].outgoing
                            } else {
                                views[i].outgoing.push(
                                    Packet { peer: Endpoint { ip, port }, data },
                                )
                            }
                        })
                    &&& dry || !views.last().takes.contains(0) || count == u64::MAX
                    &&& dry && news.last()->Missed_0 ==> now.bound_to.port == 0
                        && now.outgoing.len() == 0 && now.incoming.len() == 0
                    &&& !(dry && news.last()->Missed_0) ==> now == views.last()
                }
        }),
{
    let packets = channels::taken(news);
    let miss = channels::missed(news);
    let views = choose|views: Seq<UdpView>|
        #![trigger udp_went_through(was, packets, views)]
        udp_went_through(was, packets, views) && udp_writing_ended(
            views.last(),
            packets,
            miss,
            now,
        ) && next_counts == counts_written(counts, packets, views);
    lemma_counts_written(counts, packets, views);
    assert forall|i: int| 0 <= i < packets.len() implies given_at(
        was,
        #[trigger] packets[i],
        views,
        i,
    ) by {
        lemma_given_at(was, packets, views, i);
    }
    lemma_wrote_views(was, packets, miss, news, now, views);
}

/// Packet `i` was queued, or dropped where the socket does not take it.
spec fn given_at(
    was: UdpView,
    packet: (Seq<u8>, SocketAddr),
    views: Seq<UdpView>,
    i: int,
) -> bool {
    let (data, addr) = packet;
    let (ip, port) = match addr {
        SocketAddr::V4(v4) => (IpAddr::V4(v4.ip), v4.port),
        SocketAddr::V6(v6) => (IpAddr::V6(v6.ip), v6.port),
    };
    let nowhere = match ip {
        IpAddr::V4(v4) => v4.bits == 0,
        IpAddr::V6(v6) => v6.bits == 0,
    };
    &&& views[i].takes.contains(0)
    &&& views[i + 1].incoming == was.incoming
    &&& views[i + 1].bound_to == was.bound_to
    &&& views[i + 1].outgoing == if was.bound_to.port == 0 || nowhere || port == 0
        || !views[i].takes.contains(data.len()) {
        views[i].outgoing
    } else {
        views[i].outgoing.push(Packet { peer: Endpoint { ip, port }, data })
    }
}

proof fn lemma_given_at(
    was: UdpView,
    packets: Seq<(Seq<u8>, SocketAddr)>,
    views: Seq<UdpView>,
    i: int,
)
    requires
        udp_went_through(was, packets, views),
        0 <= i < packets.len(),
    ensures
        given_at(was, packets[i], views, i),
{
    lemma_went_through(was, packets, views, i);
    lemma_went_through(was, packets, views, i + 1);
    assert(udp_given_at(packets, views, i));
}

proof fn lemma_wrote_views(
    was: UdpView,
    packets: Seq<(Seq<u8>, SocketAddr)>,
    miss: Option<bool>,
    news: Seq<Taking<(Seq<u8>, SocketAddr)>>,
    now: UdpView,
    views: Seq<UdpView>,
)
    requires
        news == channels::draining(packets, miss),
        views.len() == packets.len() + 1,
        views[0] == was,
        udp_writing_ended(views.last(), packets, miss, now),
        forall|i: int|
            0 <= i < packets.len() ==> given_at(was, #[trigger] packets[i], views, i),
    ensures
        ({
            let dry = news.len() > 0 && news.last() is Missed;
            let count = if dry {
                news.len() - 1
            } else {
                news.len() as int
            };
            &&& count == packets.len()
            &&& exists|views: Seq<UdpView>|
                #![trigger views.last()]
                {
                    &&& views.len() == count + 1
                    &&& views[0] == was
                    &&& forall|i: int|
                        0 <= i < count ==> (#[trigger] news[i] matches Taking::Took((data, addr)) && {
                            let (ip, port) = match addr {
                                SocketAddr::V4(v4) => (IpAddr::V4(v4.ip), v4.port),
                                SocketAddr::V6(v6) => (IpAddr::V6(v6.ip), v6.port),
                            };
                            let nowhere = match ip {
                                IpAddr::V4(v4) => v4.bits == 0,
                                IpAddr::V6(v6) => v6.bits == 0,
                            };
                            &&& views[i].takes.contains(0)
                            &&& views[i + 1].incoming == was.incoming
                            &&& views[i + 1].bound_to == was.bound_to
                            &&& views[i + 1].outgoing == if was.bound_to.port == 0 || nowhere
                                || port == 0 || !views[i].takes.contains(data.len()) {
                                views[i].outgoing
                            } else {
                                views[i].outgoing.push(
                                    Packet { peer: Endpoint { ip, port }, data },
                                )
                            }
                        })
                    &&& dry || !views.last().takes.contains(0) || count == u64::MAX
                    &&& dry && news.last()->Missed_0 ==> now.bound_to.port == 0
                        && now.outgoing.len() == 0 && now.incoming.len() == 0
                    &&& !(dry && news.last()->Missed_0) ==> now == views.last()
                }
        }),
{
    let dry = news.len() > 0 && news.last() is Missed;
    let count = if dry {
        news.len() - 1
    } else {
        news.len() as int
    };
    assert(dry == miss is Some);
    assert forall|i: int| 0 <= i < count implies (#[trigger] news[i] matches Taking::Took(packet)
        && given_at(was, packet, views, i)) by {
        assert(news[i] == Taking::Took(packets[i]));
    }
    let last = views.last();
}

proof fn lemma_went_through(
    before: UdpView,
    packets: Seq<(Seq<u8>, SocketAddr)>,
    views: Seq<UdpView>,
    i: int,
)
    requires
        udp_went_through(before, packets, views),
        0 <= i <= packets.len(),
    ensures
        views[i].incoming == before.incoming,
        views[i].bound_to == before.bound_to,
    decreases i,
{
    if i > 0 {
        lemma_went_through(before, packets, views, i - 1);
        assert(udp_given_at(packets, views, i - 1));
    }
}

proof fn lemma_counts_written(
    counts: TunnelStatsSnapshot,
    packets: Seq<(Seq<u8>, SocketAddr)>,
    views: Seq<UdpView>,
)
    ensures
        ({
            let next = counts_written(counts, packets, views);
            &&& next.udp_tx_packets as int == (counts.udp_tx_packets + packets.len())
                % 0x1_0000_0000_0000_0000
            &&& next == (TunnelStatsSnapshot {
                udp_tx_packets: next.udp_tx_packets,
                udp_tx_failed: next.udp_tx_failed,
                ..counts
            })
        }),
    decreases packets.len(),
{
    if packets.len() > 0 {
        lemma_counts_written(counts, packets.drop_last(), views);
    }
}

/// A UDP socket whose channel was given up is not read.
pub proof fn packets_need_a_channel(
    socket: &mut udp::Socket<'static>,
    state: &mut UdpSocketState,
    stats: &mut TunnelStats,
)
    requires
        call_ensures(process_udp_read, (socket, state, stats), ()),
        old(state).read_tx is None,
    ensures
        net::udp_view(*final(socket)) == net::udp_view(*old(socket)),
        final(state).read_tx is None,
        final(state).write_rx == old(state).write_rx,
        final(stats).counts() == old(stats).counts(),
{
}

} // verus!
