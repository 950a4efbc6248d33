//! Sockets as their users hold them: the near end of the channels to the stack.
//!
//! Waiting for a channel is left to the caller. What was waited for comes in as
//! an argument, and what to do with it is decided here.

use vstd::prelude::*;

use smoltcp::iface::SocketHandle;
use std::sync::Arc;
use tokio::sync::mpsc::{Receiver, Sender};
use tokio::sync::Notify;

use crate::addr::SocketAddr;
use crate::bytes;
use crate::error::{broken_pipe, Error, ErrorKind};
use crate::stack::channels::{self, SendOutcome, SenderView, Signal, TcpChannels, UdpChannels};
use crate::stack::data;

verus! {

/// Received data that did not fit into the buffer of an earlier read.
pub struct ReadBuffer {
    pub data: Vec<u8>,
}

/// How many of `have` bytes fit into `room`.
pub open spec fn fitting(have: nat, room: nat) -> nat {
    if have < room {
        have
    } else {
        room
    }
}

/// `len` bytes of `source` were copied to the start of `before`; `rest` is what
/// was left of `source`.
pub open spec fn copied(
    source: Seq<u8>,
    before: Seq<u8>,
    after: Seq<u8>,
    rest: Seq<u8>,
    len: nat,
) -> bool {
    &&& len == fitting(source.len(), before.len())
    &&& after == source.take(len as int) + before.skip(len as int)
    &&& rest == source.skip(len as int)
}

/// One read.
#[verifier::ext_equal]
pub ghost struct Read {
    /// What was left of earlier reads.
    pub kept: Seq<u8>,
    /// What came out of the channel, where it was asked: nothing at the end of
    /// the stream.
    pub came: Option<Option<Seq<u8>>>,
    /// The buffer before the read.
    pub before: Seq<u8>,
    /// The buffer after it.
    pub after: Seq<u8>,
    /// How many bytes were read.
    pub len: nat,
    /// What is left for later reads.
    pub rest: Seq<u8>,
}

impl Read {
    /// What was kept is read first. Only where nothing is left is the channel
    /// asked; at the end of the stream nothing is read.
    pub open spec fn done(self) -> bool {
        match self.came {
            None => self.kept.len() > 0 && copied(
                self.kept,
                self.before,
                self.after,
                self.rest,
                self.len,
            ),
            Some(Some(data)) => self.kept.len() == 0 && copied(
                data,
                self.before,
                self.after,
                self.rest,
                self.len,
            ),
            Some(None) => {
                &&& self.kept.len() == 0
                &&& self.after == self.before
                &&& self.rest.len() == 0
                &&& self.len == 0
            },
        }
    }

    /// The bytes that were read.
    pub open spec fn bytes(self) -> Seq<u8> {
        self.after.take(self.len as int)
    }
}

/// Copy the start of `source` to `buf`, as much as fits.
fn copy_start(source: &[u8], buf: &mut [u8]) -> (len: usize)
    ensures
        copied(source@, old(buf)@, final(buf)@, source@.skip(len as int), len as nat),
{
    let len: usize = if source.len() < buf.len() {
        source.len()
    } else {
        buf.len()
    };
    let start = bytes::copy_range(source, 0, len);
    bytes::overwrite(buf, &start);
    assert(start@ =~= source@.take(len as int));
    len
}

impl ReadBuffer {
    pub fn new() -> (buffer: ReadBuffer)
        ensures
            buffer.data@.len() == 0,
    {
        ReadBuffer { data: Vec::new() }
    }

    /// Serve a read from what is left of an earlier one. Nothing is read, and
    /// new data is to be waited for, where nothing is left.
    pub fn serve(&mut self, buf: &mut [u8]) -> (len: Option<usize>)
        ensures
            match len {
                Some(len) => (Read {
                    kept: old(self).data@,
                    came: None,
                    before: old(buf)@,
                    after: final(buf)@,
                    len: len as nat,
                    rest: final(self).data@,
                }).done(),
                None => old(self).data@.len() == 0 && *final(self) == *old(self) && final(buf)@
                    == old(buf)@,
            },
    {
        if self.data.len() == 0 {
            return None;
        }
        let len: usize = copy_start(&self.data, buf);
        let rest = bytes::copy_range(&self.data, len, self.data.len());
        assert(rest@ =~= self.data@.skip(len as int));
        self.data = rest;
        Some(len)
    }

    /// Serve a read from what came out of the channel. At the end of the stream
    /// nothing is read.
    pub fn deliver(&mut self, data: Option<Vec<u8>>, buf: &mut [u8]) -> (len: usize)
        requires
            old(self).data@.len() == 0,
        ensures
            (Read {
                kept: old(self).data@,
                came: Some(data::kept(data)),
                before: old(buf)@,
                after: final(buf)@,
                len: len as nat,
                rest: final(self).data@,
            }).done(),
    {
        match data {
            Some(data) => {
                let len: usize = copy_start(&data, buf);
                let rest = bytes::copy_range(&data, len, data.len());
                assert(rest@ =~= data@.skip(len as int));
                self.data = rest;
                len
            },
            None => 0,
        }
    }
}

/// The reads came one after the other, the first on a new stream.
pub open spec fn in_turn(reads: Seq<Read>) -> bool {
    &&& forall|i: int| 0 <= i < reads.len() ==> (#[trigger] reads[i]).done()
    &&& reads.len() > 0 ==> reads[0].kept.len() == 0
    &&& forall|i: int| 0 < i < reads.len() ==> (#[trigger] reads[i]).kept == reads[i - 1].rest
}

/// All that came out of the channel, in order.
pub open spec fn delivered(reads: Seq<Read>) -> Seq<u8>
    decreases reads.len(),
{
    if reads.len() == 0 {
        Seq::empty()
    } else {
        match reads.last().came {
            Some(Some(data)) => delivered(reads.drop_last()) + data,
            _ => delivered(reads.drop_last()),
        }
    }
}

/// All that was read, in order.
pub open spec fn returned(reads: Seq<Read>) -> Seq<u8>
    decreases reads.len(),
{
    if reads.len() == 0 {
        Seq::empty()
    } else {
        returned(reads.drop_last()) + reads.last().bytes()
    }
}

/// Repeated reads give back the stream: what they return, one after the other,
/// followed by what is kept for the next, is all that came out of the channel.
pub proof fn reads_give_back_the_stream(reads: Seq<Read>)
    requires
        in_turn(reads),
    ensures
        reads.len() > 0 ==> returned(reads) + reads.last().rest == delivered(reads),
        reads.len() == 0 ==> returned(reads) == delivered(reads),
        returned(reads).is_prefix_of(delivered(reads)),
    decreases reads.len(),
{
    if reads.len() > 0 {
        let init = reads.drop_last();
        let read = reads.last();
        assert forall|i: int| 0 <= i < init.len() implies (#[trigger] init[i]).done() by {
            assert(init[i] == reads[i]);
        }
        assert forall|i: int| 0 < i < init.len() implies (#[trigger] init[i]).kept == init[i
            - 1].rest by {
            assert(init[i] == reads[i]);
        }
        reads_give_back_the_stream(init);
        assert(reads[reads.len() - 1].done());
        assert(returned(init) + read.kept =~= delivered(init)) by {
            if init.len() > 0 {
                assert(reads[reads.len() - 1].kept == reads[reads.len() - 2].rest);
            }
        }
        let source = match read.came {
            None => read.kept,
            Some(Some(data)) => data,
            Some(None) => Seq::empty(),
        };
        assert(read.bytes() + read.rest =~= source);
        assert(returned(reads) + read.rest =~= returned(init) + source);
        assert(returned(init) + source =~= delivered(reads));
        assert(returned(reads) =~= delivered(reads).take(returned(reads).len() as int));
    }
}

/// A read touches only the part of the buffer that it says it has filled. One
/// that has room returns nothing only at the end of the stream, or where the
/// channel handed out nothing; at the end all that ever came was read.
pub proof fn nothing_read_means_the_end(reads: Seq<Read>, i: int)
    requires
        in_turn(reads),
        0 <= i < reads.len(),
    ensures
        reads[i].len <= reads[i].before.len(),
        reads[i].after.len() == reads[i].before.len(),
        reads[i].after.skip(reads[i].len as int) == reads[i].before.skip(reads[i].len as int),
        reads[i].before.len() > 0 ==> (reads[i].len == 0 <==> reads[i].came == Some(
            None::<Seq<u8>>,
        ) || reads[i].came == Some(Some(Seq::<u8>::empty()))),
        reads[i].before.len() > 0 && reads[i].came != Some(Some(Seq::<u8>::empty())) ==> (reads[i].len
            == 0 <==> reads[i].came == Some(None::<Seq<u8>>)),
        reads[i].came == Some(None::<Seq<u8>>) ==> returned(reads.take(i + 1)) == delivered(
            reads.take(i + 1),
        ),
{
    let read = reads[i];
    assert(read.done());
    assert(read.after.skip(read.len as int) =~= read.before.skip(read.len as int));
    match read.came {
        Some(Some(data)) => {
            if data.len() == 0 {
                assert(data =~= Seq::<u8>::empty());
            }
        },
        _ => {},
    }
    let sofar = reads.take(i + 1);
    assert forall|j: int| 0 <= j < sofar.len() implies (#[trigger] sofar[j]).done() by {
        assert(sofar[j] == reads[j]);
    }
    assert forall|j: int| 0 < j < sofar.len() implies (#[trigger] sofar[j]).kept == sofar[j
        - 1].rest by {
        assert(sofar[j] == reads[j]);
    }
    reads_give_back_the_stream(sofar);
    if read.came == Some(None::<Seq<u8>>) {
        assert(returned(sofar) + sofar.last().rest =~= returned(sofar));
    }
}

/// What a write of `len` bytes returns, given what came of handing them to the
/// channel.
pub open spec fn write_result(outcome: SendOutcome, len: usize, result: Result<usize, Error>) -> bool {
    match outcome {
        SendOutcome::Sent => result == Ok::<usize, Error>(len),
        SendOutcome::Full => result is Err && result->Err_0.reads(
            ErrorKind::WouldBlock,
            "channel full"@,
        ),
        SendOutcome::Closed => result is Err && result->Err_0.reads(
            ErrorKind::BrokenPipe,
            "stack task gone"@,
        ),
    }
}

/// What a write of `len` bytes returns, given what came of handing them to the
/// channel.
pub fn write_outcome(outcome: SendOutcome, len: usize) -> (result: Result<usize, Error>)
    ensures
        write_result(outcome, len, result),
{
    match outcome {
        SendOutcome::Sent => Ok(len),
        SendOutcome::Full => Err(Error::new(ErrorKind::WouldBlock, "channel full")),
        SendOutcome::Closed => Err(broken_pipe("stack task gone")),
    }
}

/// What came of a write.
pub struct Written {
    pub result: Result<usize, Error>,
    /// The signal that the stack was given.
    pub signal: Option<Signal>,
}

/// A write of `len` bytes ended like this: the stack was given a signal if, and
/// only if, the channel took the data.
pub open spec fn write_ended(
    outcome: SendOutcome,
    len: usize,
    notify: Arc<Notify>,
    written: Written,
) -> bool {
    &&& write_result(outcome, len, written.result)
    &&& written.signal is Some <==> outcome == SendOutcome::Sent
    &&& written.signal matches Some(signal) ==> signal.to() == notify
}

/// End a write of `len` bytes, given what came of handing them to the channel:
/// signal the stack, if there is something for it to take.
pub fn end_write(outcome: SendOutcome, len: usize, notify: &Arc<Notify>) -> (written: Written)
    ensures
        write_ended(outcome, len, *notify, written),
{
    let signal = if outcome == SendOutcome::Sent {
        Some(channels::notify_one(channels::share(notify)))
    } else {
        None
    };
    Written { result: write_outcome(outcome, len), signal }
}

/// `data` was handed to the channel, and the write ended as that says.
pub open spec fn wrote(
    before: SenderView<Seq<u8>>,
    data: Seq<u8>,
    after: SenderView<Seq<u8>>,
    notify: Arc<Notify>,
    written: Written,
) -> bool {
    &&& after == before.offer(data, after.last_outcome())
    &&& write_ended(after.last_outcome(), data.len() as usize, notify, written)
}

/// Hand `buf` to the channel without waiting, and signal the stack.
fn try_write(tx: &mut Sender<Vec<u8>>, notify: &Arc<Notify>, buf: &[u8]) -> (written: Written)
    ensures
        wrote(
            channels::sender_view(*old(tx)),
            buf@,
            channels::sender_view(*final(tx)),
            *notify,
            written,
        ),
{
    let chunk = bytes::copy_range(buf, 0, buf.len());
    assert(chunk@ =~= buf@);
    let outcome = channels::try_send_chunk(tx, chunk);
    end_write(outcome, buf.len(), notify)
}

/// A TCP stream connected to a remote endpoint. `C` is how it reaches the
/// stack.
pub struct TcpStream<C> {
    pub handle: SocketHandle,
    pub commands: C,
    pub local_addr: SocketAddr,
    pub peer_addr: SocketAddr,
    pub write_tx: Sender<Vec<u8>>,
    pub write_notify: Arc<Notify>,
    pub read_rx: Receiver<Vec<u8>>,
    pub read_buf: ReadBuffer,
}

/// What the two halves of a stream have in common.
pub struct TcpStreamInner<C> {
    pub handle: SocketHandle,
    pub commands: C,
    pub local_addr: SocketAddr,
    pub peer_addr: SocketAddr,
    pub owners: Owners,
}

/// The read half of a TCP stream.
pub struct OwnedReadHalf {
    pub read_rx: Receiver<Vec<u8>>,
    pub read_buf: ReadBuffer,
}

/// The write half of a TCP stream.
pub struct OwnedWriteHalf {
    pub write_tx: Sender<Vec<u8>>,
    pub write_notify: Arc<Notify>,
}

impl<C> TcpStream<C> {
    /// Create a stream from its channels. Nothing has been read yet.
    pub fn from_channels(
        handle: SocketHandle,
        commands: C,
        local_addr: SocketAddr,
        peer_addr: SocketAddr,
        channels: TcpChannels,
    ) -> (stream: TcpStream<C>)
        ensures
            stream.handle == handle,
            stream.commands == commands,
            stream.local_addr == local_addr,
            stream.peer_addr == peer_addr,
            stream.write_tx == channels.write_tx,
            stream.write_notify == channels.write_notify,
            stream.read_rx == channels.read_rx,
            stream.read_buf.data@.len() == 0,
    {
        TcpStream {
            handle,
            commands,
            local_addr,
            peer_addr,
            write_tx: channels.write_tx,
            write_notify: channels.write_notify,
            read_rx: channels.read_rx,
            read_buf: ReadBuffer::new(),
        }
    }

    /// Returns the local address this socket is bound to.
    pub fn local_addr(&self) -> (addr: SocketAddr)
        ensures
            addr == self.local_addr,
    {
        self.local_addr
    }

    /// Returns the remote address this socket is connected to.
    pub fn peer_addr(&self) -> (addr: SocketAddr)
        ensures
            addr == self.peer_addr,
    {
        self.peer_addr
    }

    /// Write without waiting. The stack is signalled where the channel took the
    /// data.
    pub fn poll_write(&mut self, buf: &[u8]) -> (written: Written)
        ensures
            wrote(
                channels::sender_view(old(self).write_tx),
                buf@,
                channels::sender_view(final(self).write_tx),
                old(self).write_notify,
                written,
            ),
            *final(self) == (TcpStream { write_tx: final(self).write_tx, ..*old(self) }),
    {
        try_write(&mut self.write_tx, &self.write_notify, buf)
    }

    /// Splits the stream into what both halves share, a read half and a write
    /// half, which now own it together. What was received and not read yet goes
    /// to the read half.
    pub fn into_split(self) -> (parts: (TcpStreamInner<C>, OwnedReadHalf, OwnedWriteHalf))
        ensures
            parts.0.handle == self.handle,
            parts.0.commands == self.commands,
            parts.0.local_addr == self.local_addr,
            parts.0.peer_addr == self.peer_addr,
            parts.0.owners.left() == 2,
            parts.1 == (OwnedReadHalf { read_rx: self.read_rx, read_buf: self.read_buf }),
            parts.2 == (OwnedWriteHalf {
                write_tx: self.write_tx,
                write_notify: self.write_notify,
            }),
    {
        let mut owners = Owners::new();
        owners.split();
        (
            TcpStreamInner {
                handle: self.handle,
                commands: self.commands,
                local_addr: self.local_addr,
                peer_addr: self.peer_addr,
                owners,
            },
            OwnedReadHalf { read_rx: self.read_rx, read_buf: self.read_buf },
            OwnedWriteHalf { write_tx: self.write_tx, write_notify: self.write_notify },
        )
    }
}

impl OwnedWriteHalf {
    /// Write without waiting. The stack is signalled where the channel took the
    /// data.
    pub fn poll_write(&mut self, buf: &[u8]) -> (written: Written)
        ensures
            wrote(
                channels::sender_view(old(self).write_tx),
                buf@,
                channels::sender_view(final(self).write_tx),
                old(self).write_notify,
                written,
            ),
            final(self).write_notify == old(self).write_notify,
    {
        try_write(&mut self.write_tx, &self.write_notify, buf)
    }
}

/// How many hold a stream: the one who was given it, and after it was split the
/// two halves. Whoever lets go of it last closes the socket.
#[derive(Debug)]
pub struct Owners {
    left: u8,
}

/// What an owner of a stream does.
pub ghost enum OwnerStep {
    /// The stream is split into its halves.
    Split,
    /// One owner lets go, and closes the socket or not.
    Dropped(bool),
}

impl Owners {
    /// How many there are.
    pub closed spec fn left(&self) -> nat {
        self.left as nat
    }

    /// What the owners are after this step.
    pub open spec fn stepped(&self, step: OwnerStep, next: &Owners) -> bool {
        match step {
            OwnerStep::Split => self.left() == 1 && next.left() == 2,
            OwnerStep::Dropped(closes) => {
                &&& self.left() > 0
                &&& next.left() == self.left() - 1
                &&& closes == (self.left() == 1)
            },
        }
    }

    /// The one owner of a new stream.
    pub fn new() -> (owners: Owners)
        ensures
            owners.left() == 1,
    {
        Owners { left: 1 }
    }

    /// The stream is split into its halves. Nothing is closed.
    pub fn split(&mut self)
        requires
            old(self).left() == 1,
        ensures
            old(self).stepped(OwnerStep::Split, final(self)),
    {
        self.left = 2;
    }

    /// One owner lets go. Says whether that closes the socket. Where nobody is
    /// left, nothing happens.
    pub fn drop_one(&mut self) -> (closes: bool)
        ensures
            if old(self).left() > 0 {
                old(self).stepped(OwnerStep::Dropped(closes), final(self))
            } else {
                !closes && final(self).left() == 0
            },
    {
        if self.left == 0 {
            return false;
        }
        self.left = self.left - 1;
        self.left == 0
    }
}

/// The owners of a stream, from the first one on, went through `states` in these
/// steps.
pub open spec fn owned(states: Seq<Owners>, steps: Seq<OwnerStep>) -> bool {
    &&& states.len() == steps.len() + 1
    &&& states[0].left() == 1
    &&& forall|i: int|
        0 <= i < steps.len() ==> states[i].stepped(#[trigger] steps[i], &states[i + 1])
}

/// A stream is closed exactly when its last owner lets go, and only once:
/// splitting it does not close it, nor does dropping the first of its halves,
/// whichever that is.
pub proof fn stream_closes_with_its_last_owner(states: Seq<Owners>, steps: Seq<OwnerStep>)
    requires
        owned(states, steps),
    ensures
        forall|i: int|
            0 <= i < steps.len() ==> (#[trigger] steps[i] == OwnerStep::Dropped(true)
                <==> states[i + 1].left() == 0),
        forall|i: int, j: int|
            0 <= i < j < steps.len() && #[trigger] steps[i] == OwnerStep::Dropped(true)
                ==> #[trigger] steps[j] != OwnerStep::Dropped(true),
        states.last().left() == 0 ==> steps.len() > 0 && steps.last() == OwnerStep::Dropped(true),
{
    assert forall|i: int| 0 <= i < steps.len() implies (#[trigger] steps[i] == OwnerStep::Dropped(
        true,
    ) <==> states[i + 1].left() == 0) by {
        assert(states[i].stepped(steps[i], &states[i + 1]));
    }
    assert forall|i: int, j: int|
        0 <= i < j < steps.len() && #[trigger] steps[i] == OwnerStep::Dropped(
            true,
        ) implies #[trigger] steps[j] != OwnerStep::Dropped(true) by {
        assert(states[i + 1].stepped(steps[i + 1], &states[i + 2]));
    }
    if states.last().left() == 0 {
        let i = steps.len() - 1;
        assert(states[i].stepped(steps[i], &states[i + 1]));
    }
}

/// A stream that is split and whose halves are dropped one after the other is
/// closed by the second of them.
pub proof fn split_stream_closes_with_its_second_half(
    states: Seq<Owners>,
    first: bool,
    second: bool,
)
    requires
        owned(
            states,
            seq![OwnerStep::Split, OwnerStep::Dropped(first), OwnerStep::Dropped(second)],
        ),
    ensures
        !first,
        second,
        states.last().left() == 0,
{
    let steps = seq![OwnerStep::Split, OwnerStep::Dropped(first), OwnerStep::Dropped(second)];
    assert(states[0].stepped(steps[0], &states[1]));
    assert(states[1].stepped(steps[1], &states[2]));
    assert(states[2].stepped(steps[2], &states[3]));
}

/// A UDP socket. `C` is how it reaches the stack.
pub struct UdpSocket<C> {
    pub handle: SocketHandle,
    pub commands: C,
    pub local_addr: SocketAddr,
    pub write_tx: Sender<(Vec<u8>, SocketAddr)>,
    pub write_notify: Arc<Notify>,
    pub read_rx: Receiver<(Vec<u8>, SocketAddr)>,
}

impl<C> UdpSocket<C> {
    /// Create a socket from its channels.
    pub fn from_channels(
        handle: SocketHandle,
        commands: C,
        local_addr: SocketAddr,
        channels: UdpChannels,
    ) -> (socket: UdpSocket<C>)
        ensures
            socket == (UdpSocket {
                handle,
                commands,
                local_addr,
                write_tx: channels.write_tx,
                write_notify: channels.write_notify,
                read_rx: channels.read_rx,
            }),
    {
        UdpSocket {
            handle,
            commands,
            local_addr,
            write_tx: channels.write_tx,
            write_notify: channels.write_notify,
            read_rx: channels.read_rx,
        }
    }

    /// Returns the local address this socket is bound to.
    pub fn local_addr(&self) -> (addr: SocketAddr)
        ensures
            addr == self.local_addr,
    {
        self.local_addr
    }
}

/// Copy a packet that came out of the channel to `buf`. What does not fit is
/// lost.
pub fn deliver_packet(packet: Option<(Vec<u8>, SocketAddr)>, buf: &mut [u8]) -> (result: Result<
    (usize, SocketAddr),
    Error,
>)
    ensures
        match packet {
            Some((data, addr)) => {
                &&& result is Ok
                &&& result->Ok_0.1 == addr
                &&& copied(
                    data@,
                    old(buf)@,
                    final(buf)@,
                    data@.skip(result->Ok_0.0 as int),
                    result->Ok_0.0 as nat,
                )
            },
            None => {
                &&& result is Err
                &&& result->Err_0.reads(ErrorKind::BrokenPipe, "socket closed"@)
                &&& final(buf)@ == old(buf)@
            },
        },
{
    match packet {
        Some((data, addr)) => {
            let len: usize = copy_start(&data, buf);
            Ok((len, addr))
        },
        None => Err(broken_pipe("socket closed")),
    }
}

/// The one peer that a datagram socket talks to, once it has been told.
#[derive(Debug)]
pub struct Peer {
    pub addr: Option<SocketAddr>,
}

impl Peer {
    pub fn new() -> (peer: Peer)
        ensures
            peer.addr is None,
    {
        Peer { addr: None }
    }

    /// From now on the socket talks to `addr`.
    pub fn connect(&mut self, addr: SocketAddr)
        ensures
            final(self).addr == Some(addr),
    {
        self.addr = Some(addr);
    }

    /// The peer, if there is one.
    pub fn peer_addr(&self) -> (result: Result<SocketAddr, Error>)
        ensures
            match self.addr {
                Some(addr) => result == Ok::<SocketAddr, Error>(addr),
                None => result is Err && result->Err_0.reads(
                    ErrorKind::NotConnected,
                    "socket not connected"@,
                ),
            },
    {
        match self.addr {
            Some(addr) => Ok(addr),
            None => Err(Error::new(ErrorKind::NotConnected, "socket not connected")),
        }
    }

    /// Whether a packet from `from` is for a receiver that listens to the peer
    /// only. All others are discarded.
    pub fn hears(&self, from: SocketAddr) -> (hears: bool)
        ensures
            hears == (self.addr == Some(from)),
    {
        match self.addr {
            Some(addr) => addr == from,
            None => false,
        }
    }
}

/// A TCP listener that accepts incoming connections. `C` is how it reaches the
/// stack.
pub struct TcpListener<C> {
    pub handle: SocketHandle,
    pub local_addr: SocketAddr,
    pub commands: C,
}

impl<C> TcpListener<C> {
    /// Create a listener from its handle.
    pub fn from_handle(
        handle: SocketHandle,
        local_addr: SocketAddr,
        commands: C,
    ) -> (listener: TcpListener<C>)
        ensures
            listener == (TcpListener { handle, local_addr, commands }),
    {
        TcpListener { handle, local_addr, commands }
    }

    /// Returns the local address this listener is bound to.
    pub fn local_addr(&self) -> (addr: SocketAddr)
        ensures
            addr == self.local_addr,
    {
        self.local_addr
    }
}

/// A read takes from the front of what an earlier one left, as much as the buffer has
/// room for, and keeps the rest. Nothing is lost or read twice, and the part of the
/// buffer that was not filled stays as it is.
pub proof fn kept_bytes_are_read_first(
    fresh: ReadBuffer,
    buffer: &mut ReadBuffer,
    buf: &mut [u8],
    len: Option<usize>,
)
    requires
        call_ensures(ReadBuffer::new, (), fresh),
        call_ensures(ReadBuffer::serve, (buffer, buf), len),
    ensures
        fresh.data@.len() == 0,
        len is Some <==> old(buffer).data@.len() > 0,
        len is None ==> final(buf)@ == old(buf)@ && final(buffer).data@.len() == 0,
        len matches Some(n) ==> {
            &&& n <= old(buf)@.len()
            &&& final(buf)@.len() == old(buf)@.len()
            &&& final(buf)@.take(n as int) + final(buffer).data@ == old(buffer).data@
            &&& final(buffer).data@.len() > 0 ==> n == old(buf)@.len()
            &&& forall|i: int|
                n <= i < old(buf)@.len() ==> #[trigger] final(buf)@[i] == old(buf)@[i]
        },
{
    match len {
        Some(n) => {
            assert(final(buf)@.take(n as int) + final(buffer).data@ =~= old(buffer).data@);
        },
        None => {},
    }
}

/// The same of what comes out of the channel. At the end of the stream nothing is
/// read.
pub proof fn new_bytes_are_read_from_the_front(
    buffer: &mut ReadBuffer,
    data: Option<Vec<u8>>,
    buf: &mut [u8],
    len: usize,
)
    requires
        call_ensures(ReadBuffer::deliver, (buffer, data, buf), len),
    ensures
        data is None ==> len == 0 && final(buf)@ == old(buf)@ && final(buffer).data@.len() == 0,
        data matches Some(data) ==> {
            &&& len <= old(buf)@.len()
            &&& final(buf)@.len() == old(buf)@.len()
            &&& final(buf)@.take(len as int) + final(buffer).data@ == data@
            &&& final(buffer).data@.len() > 0 ==> len == old(buf)@.len()
            &&& forall|i: int|
                len <= i < old(buf)@.len() ==> #[trigger] final(buf)@[i] == old(buf)@[i]
        },
{
    match data {
        Some(data) => {
            assert(final(buf)@.take(len as int) + final(buffer).data@ =~= data@);
        },
        None => {},
    }
}

/// A write succeeds, with all of its bytes, just where the channel took them. A full
/// channel has to be waited for; one that is gone breaks the pipe.
pub proof fn writes_go_as_the_channel_says(
    outcome: SendOutcome,
    len: usize,
    result: Result<usize, Error>,
    notify: &Arc<Notify>,
    written: Written,
)
    requires
        call_ensures(write_outcome, (outcome, len), result),
        call_ensures(end_write, (outcome, len, notify), written),
    ensures
        result is Ok <==> outcome is Sent,
        result matches Ok(count) ==> count == len,
        outcome is Full ==> (result matches Err(error) && error.kind == ErrorKind::WouldBlock
            && error.message@ == "channel full"@),
        outcome is Closed ==> (result matches Err(error) && error.kind == ErrorKind::BrokenPipe
            && error.message@ == "stack task gone"@),
        written.result is Ok <==> outcome is Sent,
        written.result matches Ok(count) ==> count == len,
        outcome is Full ==> (written.result matches Err(error) && error.kind
            == ErrorKind::WouldBlock),
        outcome is Closed ==> (written.result matches Err(error) && error.kind
            == ErrorKind::BrokenPipe),
        written.signal is Some <==> outcome is Sent,
        written.signal matches Some(signal) ==> signal.to() == *notify,
{
}

/// A write to a stream hands all of its bytes to the stream's own channel, once, and
/// signals the stack where the channel took them. The rest of the stream stays.
pub proof fn writes_reach_the_channel<C>(
    stream: &mut TcpStream<C>,
    buf: &[u8],
    written: Written,
)
    requires
        call_ensures(TcpStream::<C>::poll_write, (stream, buf), written),
        buf@.len() <= usize::MAX,
    ensures
        ({
            let was = channels::sender_view(old(stream).write_tx);
            let now = channels::sender_view(final(stream).write_tx);
            &&& now.channel == was.channel
            &&& now.history.len() == was.history.len() + 1
            &&& now.history.drop_last() == was.history
            &&& now.history.last() matches channels::Sending::Handed(data, outcome) && {
                &&& data == buf@
                &&& written.result is Ok <==> outcome is Sent
                &&& written.result matches Ok(count) ==> count == buf@.len()
                &&& outcome is Full ==> (written.result matches Err(error) && error.kind
                    == ErrorKind::WouldBlock)
                &&& outcome is Closed ==> (written.result matches Err(error) && error.kind
                    == ErrorKind::BrokenPipe)
                &&& written.signal is Some <==> outcome is Sent
                &&& written.signal matches Some(signal) ==> signal.to() == old(
                    stream).write_notify
            }
            &&& final(stream).local_addr == old(stream).local_addr
            &&& final(stream).peer_addr == old(stream).peer_addr
            &&& final(stream).handle == old(stream).handle
            &&& final(stream).read_rx == old(stream).read_rx
            &&& final(stream).read_buf == old(stream).read_buf
        }),
{
    let was = channels::sender_view(old(stream).write_tx);
    let now = channels::sender_view(final(stream).write_tx);
    assert(now.history.drop_last() =~= was.history);
}

/// The same of the write half of a stream that was split.
pub proof fn half_writes_reach_the_channel(
    half: &mut OwnedWriteHalf,
    buf: &[u8],
    written: Written,
)
    requires
        call_ensures(OwnedWriteHalf::poll_write, (half, buf), written),
        buf@.len() <= usize::MAX,
    ensures
        ({
            let was = channels::sender_view(old(half).write_tx);
            let now = channels::sender_view(final(half).write_tx);
            &&& now.channel == was.channel
            &&& now.history.len() == was.history.len() + 1
            &&& now.history.drop_last() == was.history
            &&& now.history.last() matches channels::Sending::Handed(data, outcome) && {
                &&& data == buf@
                &&& written.result is Ok <==> outcome is Sent
                &&& written.result matches Ok(count) ==> count == buf@.len()
                &&& outcome is Full ==> (written.result matches Err(error) && error.kind
                    == ErrorKind::WouldBlock)
                &&& outcome is Closed ==> (written.result matches Err(error) && error.kind
                    == ErrorKind::BrokenPipe)
                &&& written.signal is Some <==> outcome is Sent
                &&& written.signal matches Some(signal) ==> signal.to() == old(half).write_notify
            }
            &&& final(half).write_notify == old(half).write_notify
        }),
{
    let was = channels::sender_view(old(half).write_tx);
    let now = channels::sender_view(final(half).write_tx);
    assert(now.history.drop_last() =~= was.history);
}

/// A stream has the handle, the addresses and the channels that it was made with,
/// tells its addresses, and keeps nothing to read at first.
pub proof fn streams_have_what_they_were_made_with<C>(
    handle: SocketHandle,
    commands: C,
    local_addr: SocketAddr,
    peer_addr: SocketAddr,
    ends: TcpChannels,
    stream: TcpStream<C>,
    local: SocketAddr,
    peer: SocketAddr,
)
    requires
        call_ensures(
            TcpStream::<C>::from_channels,
            (handle, commands, local_addr, peer_addr, ends),
            stream,
        ),
        call_ensures(TcpStream::<C>::local_addr, (&stream,), local),
        call_ensures(TcpStream::<C>::peer_addr, (&stream,), peer),
    ensures
        stream.handle == handle,
        stream.commands == commands,
        local == local_addr && stream.local_addr == local_addr,
        peer == peer_addr && stream.peer_addr == peer_addr,
        stream.write_tx == ends.write_tx,
        stream.read_rx == ends.read_rx,
        stream.write_notify == ends.write_notify,
        stream.read_buf.data@.len() == 0,
{
}

/// Splitting a stream gives each half its own end: the read half what was received
/// and not read yet too, the write half the signal. Both halves own it from then on.
pub proof fn halves_have_their_ends<C>(
    stream: TcpStream<C>,
    parts: (TcpStreamInner<C>, OwnedReadHalf, OwnedWriteHalf),
)
    requires
        call_ensures(TcpStream::<C>::into_split, (stream,), parts),
    ensures
        parts.0.handle == stream.handle,
        parts.0.commands == stream.commands,
        parts.0.local_addr == stream.local_addr,
        parts.0.peer_addr == stream.peer_addr,
        parts.0.owners.left() == 2,
        parts.1.read_rx == stream.read_rx,
        parts.1.read_buf == stream.read_buf,
        parts.2.write_tx == stream.write_tx,
        parts.2.write_notify == stream.write_notify,
{
}

/// A stream has one owner, and two after it was split. Letting go is counted, and
/// closes the socket where it was the last owner who let go, and only there.
pub proof fn owners_are_counted(
    fresh: Owners,
    splitting: &mut Owners,
    dropping: &mut Owners,
    closes: bool,
)
    requires
        call_ensures(Owners::new, (), fresh),
        call_ensures(Owners::split, (splitting,), ()),
        call_ensures(Owners::drop_one, (dropping,), closes),
    ensures
        fresh.left() == 1,
        final(splitting).left() == 2,
        closes <==> old(dropping).left() == 1,
        old(dropping).left() > 0 ==> final(dropping).left() == old(dropping).left() - 1,
        old(dropping).left() == 0 ==> final(dropping).left() == 0,
{
}

/// A UDP socket has what it was made with, and tells its address.
pub proof fn udp_sockets_have_what_they_were_made_with<C>(
    handle: SocketHandle,
    commands: C,
    local_addr: SocketAddr,
    ends: UdpChannels,
    socket: UdpSocket<C>,
    local: SocketAddr,
)
    requires
        call_ensures(UdpSocket::<C>::from_channels, (handle, commands, local_addr, ends), socket),
        call_ensures(UdpSocket::<C>::local_addr, (&socket,), local),
    ensures
        socket.handle == handle,
        socket.commands == commands,
        local == local_addr && socket.local_addr == local_addr,
        socket.write_tx == ends.write_tx,
        socket.read_rx == ends.read_rx,
        socket.write_notify == ends.write_notify,
{
}

/// A packet is read from its front, as much as the buffer has room for, with the
/// address that it came from. The part of the buffer that was not filled stays as it
/// is; a channel that is gone breaks the pipe.
pub proof fn packets_are_read_from_the_front(
    packet: Option<(Vec<u8>, SocketAddr)>,
    buf: &mut [u8],
    result: Result<(usize, SocketAddr), Error>,
)
    requires
        call_ensures(deliver_packet, (packet, buf), result),
    ensures
        result is Ok <==> packet is Some,
        result matches Err(error) ==> error.kind == ErrorKind::BrokenPipe && error.message@
            == "socket closed"@ && final(buf)@ == old(buf)@,
        packet matches Some((data, addr)) ==> (result matches Ok((len, from)) && {
            &&& from == addr
            &&& len <= data@.len() && len <= old(buf)@.len()
            &&& len == data@.len() || len == old(buf)@.len()
            &&& final(buf)@.len() == old(buf)@.len()
            &&& forall|i: int| 0 <= i < len ==> #[trigger] final(buf)@[i] == data@[i]
            &&& forall|i: int|
                len <= i < old(buf)@.len() ==> #[trigger] final(buf)@[i] == old(buf)@[i]
        }),
{
}

/// A socket without a peer hears nobody and tells none; once it has one, it tells that
/// one and hears only it.
pub proof fn only_the_peer_is_heard(
    fresh: Peer,
    connecting: &mut Peer,
    addr: SocketAddr,
    peer: &Peer,
    told: Result<SocketAddr, Error>,
    from: SocketAddr,
    heard: bool,
)
    requires
        call_ensures(Peer::new, (), fresh),
        call_ensures(Peer::connect, (connecting, addr), ()),
        call_ensures(Peer::peer_addr, (peer,), told),
        call_ensures(Peer::hears, (peer, from), heard),
    ensures
        fresh.addr is None,
        final(connecting).addr == Some(addr),
        told is Ok <==> peer.addr is Some,
        told matches Ok(addr) ==> peer.addr == Some(addr),
        told matches Err(error) ==> error.kind == ErrorKind::NotConnected && error.message@
            == "socket not connected"@,
        heard <==> (told is Ok && told->Ok_0 == from),
{
}

/// A listener has what it was made with, and tells its address.
pub proof fn listeners_have_what_they_were_made_with<C>(
    handle: SocketHandle,
    local_addr: SocketAddr,
    commands: C,
    listener: TcpListener<C>,
    local: SocketAddr,
)
    requires
        call_ensures(TcpListener::<C>::from_handle, (handle, local_addr, commands), listener),
        call_ensures(TcpListener::<C>::local_addr, (&listener,), local),
    ensures
        listener.handle == handle,
        listener.commands == commands,
        local == local_addr && listener.local_addr == local_addr,
{
}

} // verus!
