//! The channels between a socket and the stack.
//!
//! What a `tokio` channel holds at a given moment depends on the task at its
//! other end. What can be said of a half is what went through it, and what it
//! answered.

use vstd::prelude::*;

use std::sync::Arc;
use tokio::sync::mpsc::{self, OwnedPermit, Receiver, Sender};
use tokio::sync::Notify;

use crate::addr::SocketAddr;

verus! {

/// Capacity of the channels of a TCP socket, in chunks.
pub const TCP_CHANNEL_CAPACITY: usize = 8;

/// Capacity of the channels of a UDP socket, in packets.
pub const UDP_CHANNEL_CAPACITY: usize = 32;

#[verifier::external_type_specification]
#[verifier::external_body]
#[verifier::reject_recursive_types(T)]
pub struct ExSender<T>(tokio::sync::mpsc::Sender<T>);

#[verifier::external_type_specification]
#[verifier::external_body]
#[verifier::reject_recursive_types(T)]
pub struct ExReceiver<T>(tokio::sync::mpsc::Receiver<T>);

#[verifier::external_type_specification]
#[verifier::external_body]
#[verifier::reject_recursive_types(T)]
pub struct ExOwnedPermit<T>(tokio::sync::mpsc::OwnedPermit<T>);

#[verifier::external_type_specification]
#[verifier::external_body]
pub struct ExNotify(tokio::sync::Notify);

/// A packet on its way between a socket and the stack, with the far end.
pub type PacketWithAddr = (Vec<u8>, SocketAddr);

/// What came of handing an item to a channel.
#[derive(Clone, Copy, Debug, PartialEq, Eq, Structural)]
pub enum SendOutcome {
    Sent,
    /// The channel had no room, and refused it.
    Full,
    /// The other end is gone, and the item with it.
    Closed,
}

/// What can happen to the sending half of a channel.
pub ghost enum Sending<T> {
    /// A place was asked for: whether there was one.
    Asked(bool),
    /// An item was handed to it, and this came of it.
    Handed(T, SendOutcome),
}

/// The sending half of a channel of `T`.
#[verifier::ext_equal]
pub ghost struct SenderView<T> {
    /// Which channel it belongs to.
    pub channel: int,
    /// How much the channel holds.
    pub capacity: nat,
    /// What has happened to this half so far, in order.
    pub history: Seq<Sending<T>>,
}

impl<T> SenderView<T> {
    /// Nothing has happened to it yet.
    pub open spec fn is_fresh(self) -> bool {
        self.history.len() == 0
    }

    /// The half after this has happened too.
    pub open spec fn then_also(self, event: Sending<T>) -> SenderView<T> {
        SenderView { history: self.history.push(event), ..self }
    }

    /// The half after `item` was handed to it too, with this outcome.
    pub open spec fn offer(self, item: T, outcome: SendOutcome) -> SenderView<T> {
        self.then_also(Sending::Handed(item, outcome))
    }

    /// The half after a place was asked for.
    pub open spec fn ask(self, room: bool) -> SenderView<T> {
        self.then_also(Sending::Asked(room))
    }

    /// What came of the item that was handed over last.
    pub open spec fn last_outcome(self) -> SendOutcome {
        self.history.last()->Handed_1
    }

    /// `later` is the same half, after more has happened to it.
    pub open spec fn grows_to(self, later: SenderView<T>) -> bool {
        &&& later.channel == self.channel
        &&& later.capacity == self.capacity
        &&& later.history == self.history + self.news(later)
    }

    /// What has happened to the half since.
    pub open spec fn news(self, later: SenderView<T>) -> Seq<Sending<T>> {
        later.history.skip(self.history.len() as int)
    }

    /// Since then each item was handed over in a place that was asked for just
    /// before, and the channel took it; after that at most one place was asked
    /// for.
    pub open spec fn hands_to(self, later: SenderView<T>) -> bool {
        &&& self.grows_to(later)
        &&& self.news(later) == handing(sent(self.news(later)), unused(self.news(later)))
    }

    pub(crate) proof fn lemma_same(self)
        ensures
            self.grows_to(self),
            self.news(self) == Seq::<Sending<T>>::empty(),
    {
        assert(self.history + self.news(self) =~= self.history);
    }

    pub(crate) proof fn lemma_more(self, later: SenderView<T>, event: Sending<T>)
        requires
            self.grows_to(later),
        ensures
            self.grows_to(later.then_also(event)),
            self.news(later.then_also(event)) == self.news(later).push(event),
    {
        let more = later.then_also(event);
        assert(self.news(more) =~= self.news(later).push(event));
        assert(self.history + self.news(more) =~= more.history);
    }
}

/// The items that the channel took, in order.
pub open spec fn sent<T>(history: Seq<Sending<T>>) -> Seq<T>
    decreases history.len(),
{
    if history.len() == 0 {
        Seq::empty()
    } else {
        let before = sent(history.drop_last());
        match history.last() {
            Sending::Handed(item, SendOutcome::Sent) => before.push(item),
            _ => before,
        }
    }
}

/// The answer to the last question for a place, where no item followed it.
pub open spec fn unused<T>(history: Seq<Sending<T>>) -> Option<bool> {
    if history.len() > 0 && history.last() is Asked {
        Some(history.last()->Asked_0)
    } else {
        None
    }
}

/// Handing over `items`, each in a place that was asked for just before, and
/// asking once more where there is a `last` answer.
pub open spec fn handing<T>(items: Seq<T>, last: Option<bool>) -> Seq<Sending<T>>
    decreases items.len(),
{
    let before = if items.len() == 0 {
        Seq::empty()
    } else {
        handing(items.drop_last(), None).push(Sending::Asked(true)).push(
            Sending::Handed(items.last(), SendOutcome::Sent),
        )
    };
    match last {
        Some(room) => before.push(Sending::Asked(room)),
        None => before,
    }
}

pub(crate) proof fn lemma_handing<T>(items: Seq<T>, last: Option<bool>)
    ensures
        sent(handing(items, last)) == items,
        unused(handing(items, last)) == last,
    decreases items.len(),
{
    reveal_with_fuel(sent, 4);
    reveal_with_fuel(handing, 2);
    let whole = handing(items, None);
    assert(sent(whole) == items && unused(whole) is None) by {
        if items.len() > 0 {
            let init = items.drop_last();
            lemma_handing(init, None);
            let before = handing(init, None);
            let asked = before.push(Sending::Asked(true));
            assert(asked.drop_last() =~= before);
            assert(whole.drop_last() =~= asked);
            assert(sent(whole) =~= items);
        } else {
            assert(sent(whole) =~= items);
        }
    }
    match last {
        Some(room) => {
            assert(handing(items, last).drop_last() =~= whole);
        },
        None => {},
    }
}

pub(crate) proof fn lemma_sent_sum<T>(a: Seq<Sending<T>>, b: Seq<Sending<T>>)
    ensures
        sent(a + b) == sent(a) + sent(b),
    decreases b.len(),
{
    if b.len() == 0 {
        assert(a + b =~= a);
        assert(sent(a) + sent(b) =~= sent(a));
    } else {
        lemma_sent_sum(a, b.drop_last());
        assert((a + b).drop_last() =~= a + b.drop_last());
        assert(sent(a + b) =~= sent(a) + sent(b));
    }
}

/// One more item was handed over.
pub(crate) proof fn lemma_handing_more<T>(items: Seq<T>, item: T)
    ensures
        handing(items.push(item), None) == handing(items, None).push(Sending::Asked(true)).push(
            Sending::Handed(item, SendOutcome::Sent),
        ),
{
    assert(items.push(item).drop_last() =~= items);
}

/// What can happen to the receiving half of a channel.
pub ghost enum Taking<T> {
    /// An item was taken out of it.
    Took(T),
    /// There was nothing to take: whether the other end was gone.
    Missed(bool),
}

/// The receiving half of a channel of `T`.
#[verifier::ext_equal]
pub ghost struct ReceiverView<T> {
    /// Which channel it belongs to.
    pub channel: int,
    /// How much the channel holds.
    pub capacity: nat,
    /// What has happened to this half so far, in order.
    pub history: Seq<Taking<T>>,
}

impl<T> ReceiverView<T> {
    /// Nothing has happened to it yet.
    pub open spec fn is_fresh(self) -> bool {
        self.history.len() == 0
    }

    /// The half after this has happened too.
    pub open spec fn then_also(self, event: Taking<T>) -> ReceiverView<T> {
        ReceiverView { history: self.history.push(event), ..self }
    }

    /// The half after `item` was taken out of it too.
    pub open spec fn take(self, item: T) -> ReceiverView<T> {
        self.then_also(Taking::Took(item))
    }

    /// The half after there was nothing to take.
    pub open spec fn miss(self, gone: bool) -> ReceiverView<T> {
        self.then_also(Taking::Missed(gone))
    }

    /// `later` is the same half, after more has happened to it.
    pub open spec fn grows_to(self, later: ReceiverView<T>) -> bool {
        &&& later.channel == self.channel
        &&& later.capacity == self.capacity
        &&& later.history == self.history + self.news(later)
    }

    /// What has happened to the half since.
    pub open spec fn news(self, later: ReceiverView<T>) -> Seq<Taking<T>> {
        later.history.skip(self.history.len() as int)
    }

    /// Since then items were taken, and that ended when there was nothing to take
    /// at the latest.
    pub open spec fn drains_to(self, later: ReceiverView<T>) -> bool {
        &&& self.grows_to(later)
        &&& self.news(later) == draining(taken(self.news(later)), missed(self.news(later)))
    }

    pub(crate) proof fn lemma_same(self)
        ensures
            self.grows_to(self),
            self.news(self) == Seq::<Taking<T>>::empty(),
    {
        assert(self.history + self.news(self) =~= self.history);
    }

    pub(crate) proof fn lemma_more(self, later: ReceiverView<T>, event: Taking<T>)
        requires
            self.grows_to(later),
        ensures
            self.grows_to(later.then_also(event)),
            self.news(later.then_also(event)) == self.news(later).push(event),
    {
        let more = later.then_also(event);
        assert(self.news(more) =~= self.news(later).push(event));
        assert(self.history + self.news(more) =~= more.history);
    }
}

/// The items that were taken, in order.
pub open spec fn taken<T>(history: Seq<Taking<T>>) -> Seq<T>
    decreases history.len(),
{
    if history.len() == 0 {
        Seq::empty()
    } else {
        let before = taken(history.drop_last());
        match history.last() {
            Taking::Took(item) => before.push(item),
            Taking::Missed(_) => before,
        }
    }
}

/// Whether the other end was gone, where there was nothing to take at last.
pub open spec fn missed<T>(history: Seq<Taking<T>>) -> Option<bool> {
    if history.len() > 0 && history.last() is Missed {
        Some(history.last()->Missed_0)
    } else {
        None
    }
}

/// Taking `items` one after the other, until there is nothing to take where
/// there is a `miss`.
pub open spec fn draining<T>(items: Seq<T>, miss: Option<bool>) -> Seq<Taking<T>> {
    let before = Seq::new(items.len(), |i: int| Taking::Took(items[i]));
    match miss {
        Some(gone) => before.push(Taking::Missed(gone)),
        None => before,
    }
}

pub(crate) proof fn lemma_draining<T>(items: Seq<T>, miss: Option<bool>)
    ensures
        taken(draining(items, miss)) == items,
        missed(draining(items, miss)) == miss,
    decreases items.len(),
{
    reveal_with_fuel(taken, 2);
    let whole = draining(items, None);
    assert(taken(whole) == items && missed(whole) is None) by {
        if items.len() > 0 {
            let init = items.drop_last();
            lemma_draining(init, None);
            assert(whole.drop_last() =~= draining(init, None));
        }
        assert(taken(whole) =~= items);
    }
    match miss {
        Some(gone) => {
            assert(draining(items, miss).drop_last() =~= whole);
        },
        None => {},
    }
}

/// One more item was taken.
pub(crate) proof fn lemma_draining_more<T>(items: Seq<T>, item: T)
    ensures
        draining(items.push(item), None) == draining(items, None).push(Taking::Took(item)),
{
    assert(draining(items.push(item), None) =~= draining(items, None).push(Taking::Took(item)));
}

/// What has happened to the sending half of a channel of byte chunks.
pub uninterp spec fn sender_view(tx: Sender<Vec<u8>>) -> SenderView<Seq<u8>>;

/// What has happened to the receiving half of a channel of byte chunks.
pub uninterp spec fn receiver_view(rx: Receiver<Vec<u8>>) -> ReceiverView<Seq<u8>>;

/// What has happened to the sending half of a channel of packets.
pub uninterp spec fn packet_sender_view(tx: Sender<(Vec<u8>, SocketAddr)>) -> SenderView<
    (Seq<u8>, SocketAddr),
>;

/// What has happened to the receiving half of a channel of packets.
pub uninterp spec fn packet_receiver_view(rx: Receiver<(Vec<u8>, SocketAddr)>) -> ReceiverView<
    (Seq<u8>, SocketAddr),
>;

/// What has happened to the sending half of a channel of byte chunks that has a
/// place reserved.
pub uninterp spec fn permit_view(permit: OwnedPermit<Vec<u8>>) -> SenderView<Seq<u8>>;

/// What has happened to the sending half of a channel of packets that has a
/// place reserved.
pub uninterp spec fn packet_permit_view(permit: OwnedPermit<(Vec<u8>, SocketAddr)>) -> SenderView<
    (Seq<u8>, SocketAddr),
>;

/// What came of asking a channel for its next item.
pub enum Pull<T> {
    Item(T),
    Empty,
    Disconnected,
}

/// `tokio::sync::mpsc::channel` of byte chunks: both halves of one new channel.
#[verifier::external_body]
pub(crate) fn chunk_channel(capacity: usize) -> (ends: (Sender<Vec<u8>>, Receiver<Vec<u8>>))
    requires
        0 < capacity <= usize::MAX / 8,
    ensures
        sender_view(ends.0).channel == receiver_view(ends.1).channel,
        sender_view(ends.0).capacity == capacity,
        receiver_view(ends.1).capacity == capacity,
        sender_view(ends.0).is_fresh(),
        receiver_view(ends.1).is_fresh(),
{
    mpsc::channel(capacity)
}

/// `tokio::sync::mpsc::channel` of packets: both halves of one new channel.
#[verifier::external_body]
pub(crate) fn packet_channel(capacity: usize) -> (ends: (
    Sender<(Vec<u8>, SocketAddr)>,
    Receiver<(Vec<u8>, SocketAddr)>,
))
    requires
        0 < capacity <= usize::MAX / 8,
    ensures
        packet_sender_view(ends.0).channel == packet_receiver_view(ends.1).channel,
        packet_sender_view(ends.0).capacity == capacity,
        packet_receiver_view(ends.1).capacity == capacity,
        packet_sender_view(ends.0).is_fresh(),
        packet_receiver_view(ends.1).is_fresh(),
{
    mpsc::channel(capacity)
}

/// `Receiver::try_recv` of a byte chunk. Whether there is one depends on the
/// other end; what came of asking is part of what has happened to this half.
#[verifier::external_body]
pub(crate) fn try_recv_chunk(rx: &mut Receiver<Vec<u8>>) -> (pull: Pull<Vec<u8>>)
    ensures
        match pull {
            Pull::Item(chunk) => receiver_view(*final(rx)) == receiver_view(*old(rx)).take(chunk@),
            Pull::Empty => receiver_view(*final(rx)) == receiver_view(*old(rx)).miss(false),
            Pull::Disconnected => receiver_view(*final(rx)) == receiver_view(*old(rx)).miss(true),
        },
{
    match rx.try_recv() {
        Ok(chunk) => Pull::Item(chunk),
        Err(mpsc::error::TryRecvError::Empty) => Pull::Empty,
        Err(mpsc::error::TryRecvError::Disconnected) => Pull::Disconnected,
    }
}

/// `Receiver::try_recv` of a packet. Whether there is one depends on the other
/// end; what came of asking is part of what has happened to this half.
#[verifier::external_body]
pub(crate) fn try_recv_packet(rx: &mut Receiver<(Vec<u8>, SocketAddr)>) -> (pull: Pull<
    (Vec<u8>, SocketAddr),
>)
    ensures
        match pull {
            Pull::Item(packet) => packet_receiver_view(*final(rx)) == packet_receiver_view(
                *old(rx),
            ).take((packet.0@, packet.1)),
            Pull::Empty => packet_receiver_view(*final(rx)) == packet_receiver_view(
                *old(rx),
            ).miss(false),
            Pull::Disconnected => packet_receiver_view(*final(rx)) == packet_receiver_view(
                *old(rx),
            ).miss(true),
        },
{
    match rx.try_recv() {
        Ok(packet) => Pull::Item(packet),
        Err(mpsc::error::TryRecvError::Empty) => Pull::Empty,
        Err(mpsc::error::TryRecvError::Disconnected) => Pull::Disconnected,
    }
}

/// `Sender::try_reserve_owned`: a place for a chunk, or the half back where there is
/// none. That depends on the other end; the answer is part of what has happened
/// to this half.
#[verifier::external_body]
pub(crate) fn reserve_chunk(tx: Sender<Vec<u8>>) -> (place: Result<
    OwnedPermit<Vec<u8>>,
    Sender<Vec<u8>>,
>)
    ensures
        match place {
            Ok(permit) => permit_view(permit) == sender_view(tx).ask(true),
            Err(back) => sender_view(back) == sender_view(tx).ask(false),
        },
{
    match tx.try_reserve_owned() {
        Ok(permit) => Ok(permit),
        Err(mpsc::error::TrySendError::Full(back)) => Err(back),
        Err(mpsc::error::TrySendError::Closed(back)) => Err(back),
    }
}

/// `OwnedPermit::send` of a chunk: the channel takes it in the reserved place. The
/// half comes back.
#[verifier::external_body]
pub(crate) fn send_reserved_chunk(permit: OwnedPermit<Vec<u8>>, chunk: Vec<u8>) -> (tx:
    Sender<Vec<u8>>)
    ensures
        sender_view(tx) == permit_view(permit).offer(chunk@, SendOutcome::Sent),
{
    permit.send(chunk)
}

/// `OwnedPermit::release`: the place is free again. The half comes back.
#[verifier::external_body]
pub(crate) fn release_chunk(permit: OwnedPermit<Vec<u8>>) -> (tx: Sender<Vec<u8>>)
    ensures
        sender_view(tx) == permit_view(permit),
{
    permit.release()
}

/// `Sender::try_reserve_owned`: a place for a packet, or the half back where there is
/// none. That depends on the other end; the answer is part of what has happened
/// to this half.
#[verifier::external_body]
pub(crate) fn reserve_packet(tx: Sender<(Vec<u8>, SocketAddr)>) -> (place: Result<
    OwnedPermit<(Vec<u8>, SocketAddr)>,
    Sender<(Vec<u8>, SocketAddr)>,
>)
    ensures
        match place {
            Ok(permit) => packet_permit_view(permit) == packet_sender_view(tx).ask(true),
            Err(back) => packet_sender_view(back) == packet_sender_view(tx).ask(false),
        },
{
    match tx.try_reserve_owned() {
        Ok(permit) => Ok(permit),
        Err(mpsc::error::TrySendError::Full(back)) => Err(back),
        Err(mpsc::error::TrySendError::Closed(back)) => Err(back),
    }
}

/// `OwnedPermit::send` of a packet: the channel takes it in the reserved place. The
/// half comes back.
#[verifier::external_body]
pub(crate) fn send_reserved_packet(
    permit: OwnedPermit<(Vec<u8>, SocketAddr)>,
    packet: (Vec<u8>, SocketAddr),
) -> (tx: Sender<(Vec<u8>, SocketAddr)>)
    ensures
        packet_sender_view(tx) == packet_permit_view(permit).offer(
            (packet.0@, packet.1),
            SendOutcome::Sent,
        ),
{
    permit.send(packet)
}

/// `OwnedPermit::release`: the place is free again. The half comes back.
#[verifier::external_body]
pub(crate) fn release_packet(permit: OwnedPermit<(Vec<u8>, SocketAddr)>) -> (tx: Sender<
    (Vec<u8>, SocketAddr),
>)
    ensures
        packet_sender_view(tx) == packet_permit_view(permit),
{
    permit.release()
}

/// `Sender::try_send` of a chunk: it is handed to the channel. What comes of
/// that depends on the other end, and is part of what has happened to this half.
#[verifier::external_body]
pub(crate) fn try_send_chunk(tx: &mut Sender<Vec<u8>>, chunk: Vec<u8>) -> (outcome: SendOutcome)
    ensures
        sender_view(*final(tx)) == sender_view(*old(tx)).offer(chunk@, outcome),
{
    match tx.try_send(chunk) {
        Ok(()) => SendOutcome::Sent,
        Err(mpsc::error::TrySendError::Full(_)) => SendOutcome::Full,
        Err(mpsc::error::TrySendError::Closed(_)) => SendOutcome::Closed,
    }
}

/// A signal that was given. There is no other way to come by one than to give
/// it.
pub struct Signal {
    notify: Arc<Notify>,
}

impl Signal {
    /// Whom it went to.
    pub closed spec fn to(&self) -> Arc<Notify> {
        self.notify
    }
}

/// `Notify::notify_one`: wakes whoever waits for the signal. What is handed back
/// shows that it was called, and on what.
#[verifier::external_body]
pub(crate) fn notify_one(notify: Arc<Notify>) -> (signal: Signal)
    ensures
        signal.to() == notify,
{
    notify.notify_one();
    Signal { notify }
}

/// `Arc::clone`: the same signal, shared once more.
#[verifier::external_body]
pub(crate) fn share(notify: &Arc<Notify>) -> (same: Arc<Notify>)
    ensures
        same == *notify,
{
    Arc::clone(notify)
}

/// The socket's side of the channels of a TCP socket.
pub struct TcpChannels {
    /// Data to send, from the socket to the stack.
    pub write_tx: Sender<Vec<u8>>,
    /// Received data, from the stack to the socket.
    pub read_rx: Receiver<Vec<u8>>,
    /// Tells the stack that data was written.
    pub write_notify: Arc<Notify>,
}

/// The stack's side of the channels of a TCP socket.
pub struct TcpSocketState {
    pub write_rx: Receiver<Vec<u8>>,
    /// Nothing once the far end has closed the connection and all that it sent
    /// was handed over: the reader then finds the end.
    pub read_tx: Option<Sender<Vec<u8>>>,
    /// The rest of a chunk of which the socket took only a part.
    pub pending_write: Option<Vec<u8>>,
}

/// The socket's side of the channels of a UDP socket.
pub struct UdpChannels {
    /// Packets to send, with their destinations.
    pub write_tx: Sender<(Vec<u8>, SocketAddr)>,
    /// Received packets, with their sources.
    pub read_rx: Receiver<(Vec<u8>, SocketAddr)>,
    /// Tells the stack that a packet was written.
    pub write_notify: Arc<Notify>,
}

/// The stack's side of the channels of a UDP socket.
pub struct UdpSocketState {
    pub write_rx: Receiver<(Vec<u8>, SocketAddr)>,
    /// Away only while packets are handed over.
    pub read_tx: Option<Sender<(Vec<u8>, SocketAddr)>>,
}

/// The two sides are the ends of two channels, one in each direction, as far as
/// the stack still has its end.
pub open spec fn paired(channels: TcpChannels, state: TcpSocketState) -> bool {
    &&& sender_view(channels.write_tx).channel == receiver_view(state.write_rx).channel
    &&& state.read_tx matches Some(read_tx) ==> sender_view(read_tx).channel == receiver_view(
        channels.read_rx,
    ).channel
}

/// `later` has the same ends of the same channels as `state`, or has given one
/// up.
pub open spec fn same_ends(state: TcpSocketState, later: TcpSocketState) -> bool {
    &&& receiver_view(state.write_rx).channel == receiver_view(later.write_rx).channel
    &&& later.read_tx matches Some(read_tx) ==> state.read_tx is Some && sender_view(
        state.read_tx->0,
    ).channel == sender_view(read_tx).channel
}

/// The two sides are the ends of two channels that nothing went through yet,
/// one in each direction.
pub open spec fn tcp_connected(channels: TcpChannels, state: TcpSocketState) -> bool {
    &&& paired(channels, state)
    &&& sender_view(channels.write_tx).capacity == TCP_CHANNEL_CAPACITY
    &&& sender_view(channels.write_tx).is_fresh() && receiver_view(state.write_rx).is_fresh()
    &&& state.read_tx is Some
    &&& sender_view(state.read_tx->0).capacity == TCP_CHANNEL_CAPACITY
    &&& sender_view(state.read_tx->0).is_fresh() && receiver_view(channels.read_rx).is_fresh()
    &&& state.pending_write is None
}

/// The same of a UDP socket.
pub open spec fn udp_connected(channels: UdpChannels, state: UdpSocketState) -> bool {
    &&& packet_sender_view(channels.write_tx).channel == packet_receiver_view(
        state.write_rx,
    ).channel
    &&& state.read_tx is Some
    &&& packet_sender_view(state.read_tx->0).channel == packet_receiver_view(
        channels.read_rx,
    ).channel
    &&& packet_sender_view(channels.write_tx).capacity == UDP_CHANNEL_CAPACITY
    &&& packet_sender_view(state.read_tx->0).capacity == UDP_CHANNEL_CAPACITY
    &&& packet_sender_view(channels.write_tx).is_fresh()
    &&& packet_receiver_view(state.write_rx).is_fresh()
    &&& packet_sender_view(state.read_tx->0).is_fresh()
    &&& packet_receiver_view(channels.read_rx).is_fresh()
}

/// Create the channels of a new TCP socket.
pub fn create_tcp_channels(write_notify: Arc<Notify>) -> (sides: (TcpChannels, TcpSocketState))
    ensures
        tcp_connected(sides.0, sides.1),
        sides.0.write_notify == write_notify,
{
    let (write_tx, write_rx) = chunk_channel(TCP_CHANNEL_CAPACITY);
    let (read_tx, read_rx) = chunk_channel(TCP_CHANNEL_CAPACITY);
    let channels = TcpChannels { write_tx, read_rx, write_notify };
    let state = TcpSocketState { write_rx, read_tx: Some(read_tx), pending_write: None };
    (channels, state)
}

/// Create the channels of a new UDP socket.
pub fn create_udp_channels(write_notify: Arc<Notify>) -> (sides: (UdpChannels, UdpSocketState))
    ensures
        udp_connected(sides.0, sides.1),
        sides.0.write_notify == write_notify,
{
    let (write_tx, write_rx) = packet_channel(UDP_CHANNEL_CAPACITY);
    let (read_tx, read_rx) = packet_channel(UDP_CHANNEL_CAPACITY);
    let channels = UdpChannels { write_tx, read_rx, write_notify };
    let state = UdpSocketState { write_rx, read_tx: Some(read_tx) };
    (channels, state)
}

/// What happened, step by step, when `items` were handed over.
pub(crate) proof fn lemma_handing_steps<T>(items: Seq<T>, last: Option<bool>)
    ensures
        handing(items, last).len() == 2 * items.len() + if last is Some {
            1int
        } else {
            0int
        },
        forall|i: int|
            0 <= i < items.len() ==> #[trigger] handing(items, last)[2 * i] == Sending::<T>::Asked(
                true,
            ),
        forall|i: int|
            0 <= i < items.len() ==> handing(items, last)[2 * i + 1] == Sending::Handed(
                #[trigger] items[i],
                SendOutcome::Sent,
            ),
        last matches Some(room) ==> handing(items, last)[2 * items.len() as int]
            == Sending::<T>::Asked(room),
    decreases items.len(),
{
    if items.len() > 0 {
        let init = items.drop_last();
        lemma_handing_steps(init, None);
        let before = handing(init, None);
        let whole = handing(items, last);
        assert forall|i: int| 0 <= i < items.len() implies #[trigger] whole[2 * i]
            == Sending::<T>::Asked(true) by {
            if i < init.len() {
                assert(before[2 * i] == Sending::<T>::Asked(true));
            }
        }
        assert forall|i: int| 0 <= i < items.len() implies whole[2 * i + 1] == Sending::Handed(
            #[trigger] items[i],
            SendOutcome::Sent,
        ) by {
            if i < init.len() {
                assert(init[i] == items[i]);
                assert(whole[2 * i + 1] == before[2 * i + 1]);
            }
        }
    }
}

/// The two sides of a new TCP socket's channels are the ends of the same two
/// channels, with nothing in them, for eight chunks each: what the socket writes
/// is what the stack takes, and what the stack hands over is what the socket reads.
pub proof fn tcp_sides_belong_together(
    write_notify: Arc<Notify>,
    sides: (TcpChannels, TcpSocketState),
)
    requires
        call_ensures(create_tcp_channels, (write_notify,), sides),
    ensures
        ({
            let write_tx = sender_view(sides.0.write_tx);
            let write_rx = receiver_view(sides.1.write_rx);
            let read_tx = sender_view(sides.1.read_tx->0);
            let read_rx = receiver_view(sides.0.read_rx);
            &&& sides.0.write_notify == write_notify
            &&& sides.1.read_tx is Some
            &&& sides.1.pending_write is None
            &&& write_tx.channel == write_rx.channel
            &&& read_tx.channel == read_rx.channel
            &&& write_tx.capacity == 8 && read_tx.capacity == 8
            &&& write_tx.history.len() == 0 && write_rx.history.len() == 0
            &&& read_tx.history.len() == 0 && read_rx.history.len() == 0
        }),
{
}

/// The same of a UDP socket, for 32 packets each.
pub proof fn udp_sides_belong_together(
    write_notify: Arc<Notify>,
    sides: (UdpChannels, UdpSocketState),
)
    requires
        call_ensures(create_udp_channels, (write_notify,), sides),
    ensures
        ({
            let write_tx = packet_sender_view(sides.0.write_tx);
            let write_rx = packet_receiver_view(sides.1.write_rx);
            let read_tx = packet_sender_view(sides.1.read_tx->0);
            let read_rx = packet_receiver_view(sides.0.read_rx);
            &&& sides.0.write_notify == write_notify
            &&& sides.1.read_tx is Some
            &&& write_tx.channel == write_rx.channel
            &&& read_tx.channel == read_rx.channel
            &&& write_tx.capacity == 32 && read_tx.capacity == 32
            &&& write_tx.history.len() == 0 && write_rx.history.len() == 0
            &&& read_tx.history.len() == 0 && read_rx.history.len() == 0
        }),
{
}

} // verus!
