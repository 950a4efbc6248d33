//! The client's side: the handshake with the proxy, the messages between the
//! proxy and the stack, commands and who waits for their answers.

use vstd::prelude::*;

use std::collections::HashMap;
use tokio::sync::mpsc::Sender;

use crate::bytes;
use crate::error::{unexpected_eof, Error, ErrorKind};
use crate::procnet::InterfaceEntries;
use crate::protocol::{
    self, decode_message, encode_frame, length_prefix, prefixed_length, Message, ProxyCommand,
};
use crate::relay::ProxyReply;
use crate::stack::channels::{self, SendOutcome};
use crate::stats::{Event, TunnelStats, TunnelStatsSnapshot};
use crate::text;

verus! {

/// A text with a detail behind it, if there is one.
pub open spec fn with_detail(what: Seq<char>, detail: Seq<char>) -> Seq<char> {
    if detail.len() == 0 {
        what
    } else {
        what + ": "@ + detail
    }
}

fn append_detail(what: &str, detail: &str) -> (out: String)
    ensures
        out@ == with_detail(what@, detail@),
{
    let mut out = what.to_owned();
    if detail.unicode_len() > 0 {
        out.append(": ");
        out.append(detail);
    }
    out
}

/// What came of trying to read from a proxy that was just started.
#[derive(Debug)]
pub enum HandshakeRead {
    /// Some bytes, or none at the end of the stream. The proxy's complaints
    /// come with the end.
    Data { data: Vec<u8>, stderr: String },
    /// Nothing for a while. A proxy that has exited tells how, and why.
    Idle { past_deadline: bool, exited: Option<(String, String)> },
    /// Reading has failed.
    Failed(Error),
}

/// How the handshake goes on.
#[derive(Debug)]
pub enum HandshakeStep {
    GoOn,
    /// The length of the proxy's message is known.
    Length(u32),
    Fail(Error),
}

/// Reads the length of the proxy's first message, however slowly it comes.
#[derive(Debug)]
pub struct LengthReader {
    pub prefix: Vec<u8>,
}

impl LengthReader {
    /// Less than the whole length has been read.
    pub open spec fn wf(&self) -> bool {
        self.prefix@.len() < 4
    }

    pub fn new() -> (reader: LengthReader)
        ensures
            reader.wf(),
            reader.prefix@.len() == 0,
    {
        LengthReader { prefix: Vec::new() }
    }

    /// How many bytes are missing.
    pub fn missing(&self) -> (len: usize)
        requires
            self.wf(),
        ensures
            len == 4 - self.prefix@.len(),
            len > 0,
    {
        4 - self.prefix.len()
    }

    /// What follows on a read.
    pub open spec fn stepped(&self, before: &LengthReader, read: HandshakeRead, step: HandshakeStep) -> bool {
        match read {
            HandshakeRead::Data { data, stderr } => if data@.len() == 0 {
                &&& step matches HandshakeStep::Fail(error)
                &&& error.reads(
                    ErrorKind::UnexpectedEof,
                    with_detail("proxy closed connection during handshake"@, stderr@),
                )
            } else {
                let so_far = before.prefix@ + data@;
                if so_far.len() < 4 {
                    step is GoOn && self.prefix@ == so_far
                } else {
                    step matches HandshakeStep::Length(len) && len == bytes::le_value(
                        so_far.take(4),
                    )
                }
            },
            HandshakeRead::Idle { past_deadline, exited } => if past_deadline {
                &&& step matches HandshakeStep::Fail(error)
                &&& error.reads(ErrorKind::TimedOut, "timed out waiting for proxy handshake"@)
            } else {
                match exited {
                    Some((status, stderr)) => {
                        &&& step matches HandshakeStep::Fail(error)
                        &&& error.reads(
                            ErrorKind::Other,
                            with_detail("proxy exited with "@ + status@, stderr@),
                        )
                    },
                    None => step is GoOn && *self == *before,
                }
            },
            HandshakeRead::Failed(error) => step matches HandshakeStep::Fail(same) && same
                == error,
        }
    }

    /// Go on with what came of a read.
    pub fn on_read(&mut self, read: HandshakeRead) -> (step: HandshakeStep)
        requires
            old(self).wf(),
            read matches HandshakeRead::Data { data, .. } ==> data@.len() <= 4
                - old(self).prefix@.len(),
        ensures
            step is GoOn ==> final(self).wf(),
            final(self).stepped(old(self), read, step),
    {
        match read {
            HandshakeRead::Data { data, stderr } => {
                if data.len() == 0 {
                    let message = append_detail(
                        "proxy closed connection during handshake",
                        stderr.as_str(),
                    );
                    return HandshakeStep::Fail(unexpected_eof(message.as_str()));
                }
                bytes::append(&mut self.prefix, &data);
                if self.prefix.len() < 4 {
                    HandshakeStep::GoOn
                } else {
                    assert(self.prefix@.take(4) =~= self.prefix@);
                    HandshakeStep::Length(prefixed_length(&self.prefix))
                }
            },
            HandshakeRead::Idle { past_deadline, exited } => {
                if past_deadline {
                    return HandshakeStep::Fail(
                        Error::new(ErrorKind::TimedOut, "timed out waiting for proxy handshake"),
                    );
                }
                match exited {
                    Some((status, stderr)) => {
                        let what = text::join("proxy exited with ", status.as_str());
                        let message = append_detail(what.as_str(), stderr.as_str());
                        HandshakeStep::Fail(Error::new(ErrorKind::Other, message.as_str()))
                    },
                    None => HandshakeStep::GoOn,
                }
            },
            HandshakeRead::Failed(error) => HandshakeStep::Fail(error),
        }
    }
}

/// The JSON of the proxy's configuration, if the message is a control message.
pub fn proxy_config_payload(message: &[u8]) -> (result: Result<Vec<u8>, Error>)
    ensures
        match result {
            Ok(payload) => message@ == protocol::encoded(protocol::MSG_TYPE_CONTROL, payload@),
            Err(error) => {
                &&& message@.len() == 0 || message@[0] != protocol::MSG_TYPE_CONTROL
                &&& error.reads(
                    ErrorKind::InvalidData,
                    protocol::not_control_text(message@, "expected ProxyConfig, got frame"@),
                )
            },
        },
{
    protocol::control_payload(message, "expected ProxyConfig, got frame")
}

/// The proxy's program could not be started, and why.
pub fn spawn_failure(kind: ErrorKind, path: &str, cause: &str) -> (error: Error)
    ensures
        error.reads(kind, "failed to spawn proxy binary '"@ + path@ + "': "@ + cause@),
{
    let mut message = text::join("failed to spawn proxy binary '", path);
    message.append("': ");
    message.append(cause);
    Error::new(kind, message.as_str())
}

/// A message for the proxy behind its length.
pub fn ipc_message(message: &[u8]) -> (out: Vec<u8>)
    requires
        message@.len() <= u32::MAX,
    ensures
        out@ == protocol::framed(message@),
{
    let mut out = length_prefix(message.len() as u32);
    bytes::append(&mut out, message);
    out
}

/// A frame for the proxy, as a message behind its length.
pub fn ipc_frame(frame: &[u8]) -> (out: Vec<u8>)
    requires
        frame@.len() < u32::MAX,
    ensures
        out@ == protocol::framed(protocol::encoded(protocol::MSG_TYPE_FRAME, frame@)),
{
    ipc_message(&encode_frame(frame))
}

/// What to do after a message from the proxy.
#[derive(Debug)]
pub enum ReaderStep {
    GoOn,
    /// Decode the JSON of an answer, and tell whoever waits for it.
    Answer(Vec<u8>),
    Stop,
}

/// The counters after a frame from the proxy: it was received, and dropped where
/// the stack had no room for it.
pub open spec fn counts_received(
    counts: TunnelStatsSnapshot,
    outcome: SendOutcome,
) -> TunnelStatsSnapshot {
    if outcome == SendOutcome::Full {
        counts.after(Event::FrameReceived).after(Event::FrameDropped)
    } else {
        counts.after(Event::FrameReceived)
    }
}

/// Take note of a frame from the proxy, given what came of handing it to the
/// stack. Says whether to go on.
pub fn frame_received(stats: &mut TunnelStats, outcome: SendOutcome) -> (go_on: bool)
    ensures
        go_on == (outcome != SendOutcome::Closed),
        final(stats).counts() == counts_received(old(stats).counts(), outcome),
{
    stats.record(Event::FrameReceived);
    match outcome {
        SendOutcome::Sent => true,
        SendOutcome::Full => {
            stats.record(Event::FrameDropped);
            true
        },
        SendOutcome::Closed => false,
    }
}

/// Deal with a message from the proxy: frames go to the stack, answers to
/// whoever waits for them. What makes no sense is left.
pub fn on_ipc_message(
    message: &[u8],
    frame_tx: &mut Sender<Vec<u8>>,
    stats: &mut TunnelStats,
) -> (step: ReaderStep)
    ensures
        match protocol_kind(message@) {
            Some(protocol::MSG_TYPE_FRAME) => {
                let outcome = channels::sender_view(*final(frame_tx)).last_outcome();
                &&& channels::sender_view(*final(frame_tx)) == channels::sender_view(
                    *old(frame_tx),
                ).offer(message@.skip(1), outcome)
                &&& final(stats).counts() == counts_received(old(stats).counts(), outcome)
                &&& if outcome == SendOutcome::Closed {
                    step is Stop
                } else {
                    step is GoOn
                }
            },
            Some(protocol::MSG_TYPE_CONTROL) => {
                &&& step matches ReaderStep::Answer(payload)
                &&& payload@ == message@.skip(1)
                &&& *final(frame_tx) == *old(frame_tx)
                &&& *final(stats) == *old(stats)
            },
            _ => {
                &&& step is GoOn
                &&& *final(frame_tx) == *old(frame_tx)
                &&& *final(stats) == *old(stats)
            },
        },
{
    match decode_message(message) {
        Ok(Message::Frame(frame)) => {
            assert(frame@ =~= message@.skip(1));
            let outcome = channels::try_send_chunk(frame_tx, frame);
            if frame_received(stats, outcome) {
                ReaderStep::GoOn
            } else {
                ReaderStep::Stop
            }
        },
        Ok(Message::Control(payload)) => {
            assert(payload@ =~= message@.skip(1));
            ReaderStep::Answer(payload)
        },
        Err(_) => ReaderStep::GoOn,
    }
}

/// The kind of a message, as its first byte tells.
pub open spec fn protocol_kind(message: Seq<u8>) -> Option<u8> {
    if message.len() == 0 {
        None
    } else {
        Some(message[0])
    }
}

/// Where the writer of messages to the proxy stands. It waits for a message,
/// writes what else there is, and then sends it all off.
#[derive(Clone, Copy, Debug, PartialEq, Eq, Structural)]
pub enum WriterPhase {
    Waiting,
    DrainingFrames,
    DrainingControl,
    Flushing,
    Done,
}

/// What the writer has come to.
#[derive(Clone, Copy, Debug, PartialEq, Eq, Structural)]
pub enum WriterEvent {
    /// A frame was written, or could not be.
    Frame { written: bool },
    /// A control message was written, or could not be.
    Control { written: bool },
    /// Nothing is left to drain.
    Drained,
    /// Everything was sent off, or could not be.
    Flushed { written: bool },
    /// Nobody has anything to write any more.
    Closed,
}

/// The writer of messages to the proxy.
#[derive(Debug)]
pub struct IpcWriter {
    pub phase: WriterPhase,
    /// The connection to the proxy is lost.
    pub dead: bool,
}

impl IpcWriter {
    pub fn new() -> (writer: IpcWriter)
        ensures
            writer.phase == WriterPhase::Waiting,
            !writer.dead,
    {
        IpcWriter { phase: WriterPhase::Waiting, dead: false }
    }

    /// The event can come about in this phase.
    pub open spec fn expects(&self, event: WriterEvent) -> bool {
        match self.phase {
            WriterPhase::Waiting => event is Frame || event is Control || event is Closed,
            WriterPhase::DrainingFrames => event is Frame || event is Drained,
            WriterPhase::DrainingControl => event is Control || event is Drained,
            WriterPhase::Flushing => event is Flushed,
            WriterPhase::Done => false,
        }
    }

    /// Something could not be written.
    pub open spec fn failed(event: WriterEvent) -> bool {
        match event {
            WriterEvent::Frame { written } => !written,
            WriterEvent::Control { written } => !written,
            WriterEvent::Flushed { written } => !written,
            _ => false,
        }
    }

    /// The phase after an event. A failure while waiting or flushing is the
    /// end; while draining, the rest is still tried.
    pub open spec fn phase_after(&self, event: WriterEvent) -> WriterPhase {
        match self.phase {
            WriterPhase::Waiting => if Self::failed(event) || event is Closed {
                WriterPhase::Done
            } else {
                WriterPhase::DrainingFrames
            },
            WriterPhase::DrainingFrames => if Self::failed(event) || event is Drained {
                WriterPhase::DrainingControl
            } else {
                WriterPhase::DrainingFrames
            },
            WriterPhase::DrainingControl => if Self::failed(event) || event is Drained {
                WriterPhase::Flushing
            } else {
                WriterPhase::DrainingControl
            },
            WriterPhase::Flushing => if Self::failed(event) {
                WriterPhase::Done
            } else {
                WriterPhase::Waiting
            },
            WriterPhase::Done => WriterPhase::Done,
        }
    }

    /// Take note of an event.
    pub fn on_event(&mut self, event: WriterEvent, stats: &mut TunnelStats)
        requires
            old(self).expects(event),
        ensures
            final(self).phase == old(self).phase_after(event),
            final(self).dead == (old(self).dead || Self::failed(event)),
            final(stats).counts() == match event {
                WriterEvent::Frame { written } => if written {
                    old(stats).counts().after(Event::FrameSent)
                } else {
                    old(stats).counts().after(Event::FrameLost)
                },
                _ => old(stats).counts(),
            },
    {
        let failed: bool = match event {
            WriterEvent::Frame { written } => {
                if written {
                    stats.record(Event::FrameSent);
                } else {
                    stats.record(Event::FrameLost);
                }
                !written
            },
            WriterEvent::Control { written } => !written,
            WriterEvent::Flushed { written } => !written,
            WriterEvent::Drained => false,
            WriterEvent::Closed => false,
        };
        let over: bool = match event {
            WriterEvent::Closed => true,
            WriterEvent::Drained => true,
            _ => failed,
        };
        if failed {
            self.dead = true;
        }
        self.phase = match self.phase {
            WriterPhase::Waiting => if over {
                WriterPhase::Done
            } else {
                WriterPhase::DrainingFrames
            },
            WriterPhase::DrainingFrames => if over {
                WriterPhase::DrainingControl
            } else {
                WriterPhase::DrainingFrames
            },
            WriterPhase::DrainingControl => if over {
                WriterPhase::Flushing
            } else {
                WriterPhase::DrainingControl
            },
            WriterPhase::Flushing => if failed {
                WriterPhase::Done
            } else {
                WriterPhase::Waiting
            },
            WriterPhase::Done => WriterPhase::Done,
        };
    }
}

/// Nothing stays unsent while the writer waits: since the last message it wrote,
/// it has sent off everything.
pub proof fn nothing_stays_unsent(states: Seq<IpcWriter>, events: Seq<WriterEvent>, last: int)
    requires
        states.len() == events.len() + 1,
        states[0].phase == WriterPhase::Waiting,
        forall|i: int|
            0 <= i < events.len() ==> (#[trigger] states[i]).expects(events[i]) && states[i
                + 1].phase == states[i].phase_after(events[i]),
        states.last().phase == WriterPhase::Waiting,
        0 <= last < events.len(),
        events[last] is Frame || events[last] is Control,
    ensures
        exists|i: int| last < i < events.len() && #[trigger] events[i] == (WriterEvent::Flushed {
            written: true,
        }),
{
    let n = events.len() - 1;
    assert(states[n].expects(events[n]) && states[n + 1].phase == states[n].phase_after(events[n]));
    assert(events[n] == (WriterEvent::Flushed { written: true }));
}

/// Commands to the proxy that were not answered yet. Behind a `T` someone waits
/// for the answer.
pub struct PendingResponses<T> {
    pub waiting: HashMap<u64, T>,
    pub next_id: u64,
}

impl<T> PendingResponses<T> {
    /// Who waits, by the id of the command.
    pub open spec fn view(&self) -> Map<u64, T> {
        self.waiting@
    }

    pub fn new() -> (pending: PendingResponses<T>)
        ensures
            pending.view().dom() == Set::<u64>::empty(),
            pending.next_id == 1,
    {
        let pending = PendingResponses { waiting: HashMap::new(), next_id: 1 };
        assert(pending.view().dom() =~= Set::<u64>::empty());
        pending
    }

    /// Give a command the next id, and remember who waits for its answer.
    pub fn register(&mut self, command: ProxyCommand, token: T) -> (numbered: ProxyCommand)
        ensures
            numbered == command.spec_with_id(old(self).next_id),
            final(self).view() == old(self).view().insert(old(self).next_id, token),
            final(self).next_id == crate::stats::next_count(old(self).next_id),
    {
        broadcast use vstd::std_specs::hash::group_hash_axioms;

        let id: u64 = self.next_id;
        self.next_id = self.next_id.wrapping_add(1);
        self.waiting.insert(id, token);
        command.with_id(id)
    }

    /// Who waits for the answer with this id. Nobody does any more.
    pub fn resolve(&mut self, id: u64) -> (token: Option<T>)
        ensures
            match token {
                Some(token) => old(self).view().contains_key(id) && token == old(self).view()[id],
                None => !old(self).view().contains_key(id),
            },
            final(self).view() == old(self).view().remove(id),
            final(self).next_id == old(self).next_id,
    {
        broadcast use vstd::std_specs::hash::group_hash_axioms;

        let token = self.waiting.remove(&id);
        assert(self.view() =~= old(self).view().remove(id));
        token
    }
}

/// An answer finds whoever has asked: the command carries the id under which
/// its token is kept.
pub proof fn answers_find_their_askers<T>(
    before: PendingResponses<T>,
    after: PendingResponses<T>,
    command: ProxyCommand,
    token: T,
)
    requires
        after.view() == before.view().insert(before.next_id, token),
    ensures
        command.spec_with_id(before.next_id).spec_id() == before.next_id,
        after.view().contains_key(before.next_id),
        after.view()[before.next_id] == token,
        forall|id: u64|
            id != before.next_id && before.view().contains_key(id) ==> #[trigger]
            after.view().contains_key(id) && after.view()[id] == before.view()[id],
{
}

/// What a command on a route returns, given the proxy's answer.
pub fn route_result(reply: ProxyReply) -> (result: Result<(), Error>)
    ensures
        match reply {
            ProxyReply::Status(response) => match response.error {
                None => result is Ok,
                Some(message) => result is Err && result->Err_0.reads(ErrorKind::Other, message@),
            },
            ProxyReply::IfaceStats { .. } => result is Err && result->Err_0.reads(
                ErrorKind::Other,
                "unexpected response"@,
            ),
        },
{
    match reply {
        ProxyReply::Status(response) => match response.error {
            None => Ok(()),
            Some(message) => Err(Error::new(ErrorKind::Other, message.as_str())),
        },
        ProxyReply::IfaceStats { .. } => Err(Error::new(ErrorKind::Other, "unexpected response")),
    }
}

/// What a question for statistics returns, given the proxy's answer.
pub fn iface_stats_result(reply: ProxyReply) -> (result: Result<InterfaceEntries, Error>)
    ensures
        match reply {
            ProxyReply::Status(response) => result is Err && result->Err_0.reads(
                ErrorKind::Other,
                match response.error {
                    Some(message) => message@,
                    None => "unexpected response"@,
                },
            ),
            ProxyReply::IfaceStats { interfaces, .. } => result == Ok::<InterfaceEntries, Error>(
                interfaces,
            ),
        },
{
    match reply {
        ProxyReply::IfaceStats { interfaces, .. } => Ok(interfaces),
        ProxyReply::Status(response) => match response.error {
            Some(message) => Err(Error::new(ErrorKind::Other, message.as_str())),
            None => Err(Error::new(ErrorKind::Other, "unexpected response")),
        },
    }
}

/// Whether a tunnel still has to be torn down. That happens once.
#[derive(Debug)]
pub struct CloseFlag {
    pub closed: bool,
}

impl CloseFlag {
    pub fn new() -> (flag: CloseFlag)
        ensures
            !flag.closed,
    {
        CloseFlag { closed: false }
    }

    /// Close. Says whether it is this call that has to tear the tunnel down.
    pub fn close(&mut self) -> (first: bool)
        ensures
            first == !old(self).closed,
            final(self).closed,
    {
        let first: bool = !self.closed;
        self.closed = true;
        first
    }
}

/// The reader of the length begins with nothing and wants what is missing of four
/// bytes.
pub proof fn four_bytes_make_a_length(fresh: LengthReader, reader: &LengthReader, len: usize)
    requires
        call_ensures(LengthReader::new, (), fresh),
        call_ensures(LengthReader::missing, (reader,), len),
        reader.prefix@.len() <= 4,
    ensures
        fresh.prefix@.len() == 0,
        reader.prefix@.len() + len == 4,
{
}

/// Bytes of the length are put together in the order in which they come; with the
/// fourth the length is known, its lowest byte first. The end of the stream, the
/// deadline, a proxy that has exited and a read that fails end the handshake, each
/// with its own error.
pub proof fn lengths_are_put_together(
    reader: &mut LengthReader,
    read: HandshakeRead,
    step: HandshakeStep,
)
    requires
        call_ensures(LengthReader::on_read, (reader, read), step),
    ensures
        match read {
            HandshakeRead::Data { data, stderr } => {
                let all = old(reader).prefix@ + data@;
                &&& data@.len() == 0 ==> (step matches HandshakeStep::Fail(error) && error.kind
                    == ErrorKind::UnexpectedEof && error.message@
                    == "proxy closed connection during handshake"@ + if stderr@.len() == 0 {
                    Seq::empty()
                } else {
                    ": "@ + stderr@
                })
                &&& data@.len() > 0 && all.len() < 4 ==> step is GoOn && final(reader).prefix@ == all
                &&& data@.len() > 0 && all.len() >= 4 ==> (step matches HandshakeStep::Length(len)
                    && len == all[0] + 0x100 * all[1] + 0x1_0000 * all[2] + 0x100_0000 * all[3])
            },
            HandshakeRead::Idle { past_deadline, exited } => {
                &&& past_deadline ==> (step matches HandshakeStep::Fail(error) && error.kind
                    == ErrorKind::TimedOut && error.message@
                    == "timed out waiting for proxy handshake"@)
                &&& !past_deadline ==> (exited matches Some((status, stderr)) ==> (
                step matches HandshakeStep::Fail(error) && error.kind == ErrorKind::Other
                    && error.message@ == "proxy exited with "@ + status@ + if stderr@.len() == 0 {
                    Seq::empty()
                } else {
                    ": "@ + stderr@
                }))
                &&& !past_deadline && exited is None ==> step is GoOn && final(reader).prefix@ == old(
                    reader).prefix@
            },
            HandshakeRead::Failed(error) => step matches HandshakeStep::Fail(same) && same == error,
        },
{
    match read {
        HandshakeRead::Data { data, stderr } => {
            let all = old(reader).prefix@ + data@;
            let closed = "proxy closed connection during handshake"@;
            assert(closed + Seq::<char>::empty() =~= closed);
            assert(closed + ": "@ + stderr@ =~= closed + (": "@ + stderr@));
            if data@.len() > 0 && all.len() >= 4 {
                bytes::four_bytes_spell(all.take(4));
            }
        },
        HandshakeRead::Idle { exited, .. } => {
            match exited {
                Some((status, stderr)) => {
                    let what = "proxy exited with "@ + status@;
                    assert(what + Seq::<char>::empty() =~= what);
                    assert(what + ": "@ + stderr@ =~= what + (": "@ + stderr@));
                },
                None => {},
            }
        },
        _ => {},
    }
}

/// The proxy's configuration comes in a control message, and its text is all that
/// follows the first byte. Anything else is refused.
pub proof fn configurations_come_in_control_messages(
    message: &[u8],
    result: Result<Vec<u8>, Error>,
)
    requires
        call_ensures(proxy_config_payload, (message,), result),
    ensures
        result is Ok <==> message@.len() > 0 && message@[0] == 0,
        result matches Ok(payload) ==> payload@ == message@.skip(1),
        result matches Err(error) ==> error.kind == ErrorKind::InvalidData,
        message@.len() > 0 && message@[0] == 1 ==> (result matches Err(error) && error.message@
            == "expected ProxyConfig, got frame"@),
        message@.len() == 0 ==> (result matches Err(error) && error.message@ == "empty message"@),
{
    match result {
        Ok(payload) => {
            assert(message@.skip(1) =~= payload@);
        },
        Err(_) => {},
    }
}

/// A proxy that could not be started is named, with the cause.
pub proof fn failed_starts_name_the_program(
    kind: ErrorKind,
    path: &str,
    cause: &str,
    error: Error,
)
    requires
        call_ensures(spawn_failure, (kind, path, cause), error),
    ensures
        error.kind == kind,
        error.message@ == "failed to spawn proxy binary '"@ + path@ + "': "@ + cause@,
{
}

/// A message for the proxy stands whole behind its length, and a frame is a message
/// with a one in front.
pub proof fn messages_stand_behind_their_length(
    message: &[u8],
    out: Vec<u8>,
    prefix: Vec<u8>,
    framed: Vec<u8>,
    longer: Vec<u8>,
)
    requires
        call_ensures(ipc_message, (message,), out),
        call_ensures(length_prefix, (message@.len() as u32,), prefix),
        message@.len() < u32::MAX,
        call_ensures(ipc_frame, (message,), framed),
        call_ensures(length_prefix, ((message@.len() + 1) as u32,), longer),
    ensures
        out@ == prefix@ + message@,
        framed@ == longer@ + seq![1u8] + message@,
{
    assert(out@ =~= prefix@ + message@);
    assert(framed@ =~= longer@ + seq![1u8] + message@);
}

/// A frame from the proxy is counted as received, and as dropped too where the stack
/// had no room; only a stack that is gone ends it.
pub proof fn received_frames_are_counted(
    stats: &mut TunnelStats,
    outcome: SendOutcome,
    go_on: bool,
)
    requires
        call_ensures(frame_received, (stats, outcome), go_on),
    ensures
        go_on <==> !(outcome is Closed),
        final(stats).ipc_rx_frames as int == (old(stats).ipc_rx_frames + 1)
            % 0x1_0000_0000_0000_0000,
        final(stats).ipc_rx_dropped as int == (old(stats).ipc_rx_dropped + if outcome is Full {
            1int
        } else {
            0int
        }) % 0x1_0000_0000_0000_0000,
        final(stats).ipc_tx_frames == old(stats).ipc_tx_frames,
        final(stats).ipc_tx_errors == old(stats).ipc_tx_errors,
        final(stats).device_rx_frames == old(stats).device_rx_frames,
        final(stats).device_tx_frames == old(stats).device_tx_frames,
        final(stats).device_tx_dropped == old(stats).device_tx_dropped,
{
}

/// Every frame from the proxy is offered to the stack, once and whole; the text of a
/// control message is an answer. Other messages change nothing.
pub proof fn frames_are_offered_to_the_stack(
    message: &[u8],
    frame_tx: &mut Sender<Vec<u8>>,
    stats: &mut TunnelStats,
    step: ReaderStep,
)
    requires
        call_ensures(on_ipc_message, (message, frame_tx, stats), step),
    ensures
        ({
            let was = channels::sender_view(*old(frame_tx));
            let now = channels::sender_view(*final(frame_tx));
            let kind = message@[0];
            &&& message@.len() > 0 && kind == 1 ==> {
                &&& now.channel == was.channel
                &&& now.history.len() == was.history.len() + 1
                &&& now.history.drop_last() == was.history
                &&& now.history.last() matches channels::Sending::Handed(frame, outcome) && {
                    &&& frame == message@.skip(1)
                    &&& outcome is Closed ==> step is Stop
                    &&& !(outcome is Closed) ==> step is GoOn
                    &&& final(stats).ipc_rx_frames as int == (old(stats).ipc_rx_frames + 1)
                        % 0x1_0000_0000_0000_0000
                    &&& final(stats).ipc_rx_dropped as int == (old(stats).ipc_rx_dropped
                        + if outcome is Full {
                        1int
                    } else {
                        0int
                    }) % 0x1_0000_0000_0000_0000
                }
            }
            &&& message@.len() > 0 && kind == 0 ==> (step matches ReaderStep::Answer(payload)
                && payload@ == message@.skip(1))
            &&& message@.len() == 0 || kind > 1 ==> step is GoOn
            &&& message@.len() == 0 || kind != 1 ==> now == was && *final(stats) == *old(stats)
        }),
{
    let was = channels::sender_view(*old(frame_tx));
    let now = channels::sender_view(*final(frame_tx));
    if message@.len() > 0 && message@[0] == 1 {
        assert(now.history.drop_last() =~= was.history);
    }
}

/// The writer waits for a message, then takes all frames and all control messages
/// that are there, and sends them off before it waits again. Every frame is counted
/// as sent or as lost, and a failure means that the proxy is gone.
pub proof fn writers_send_off_what_they_wrote(
    fresh: IpcWriter,
    writer: &mut IpcWriter,
    event: WriterEvent,
    stats: &mut TunnelStats,
)
    requires
        call_ensures(IpcWriter::new, (), fresh),
        call_ensures(IpcWriter::on_event, (writer, event, stats), ()),
    ensures
        fresh.phase is Waiting && !fresh.dead,
        ({
            let was = old(writer).phase;
            let now = final(writer).phase;
            let failed = match event {
                WriterEvent::Frame { written } => !written,
                WriterEvent::Control { written } => !written,
                WriterEvent::Flushed { written } => !written,
                _ => false,
            };
            &&& final(writer).dead <==> old(writer).dead || failed
            &&& was is Waiting && (failed || event is Closed) ==> now is Done
            &&& was is Waiting && !failed && (event is Frame || event is Control)
                ==> now is DrainingFrames
            &&& was is DrainingFrames && (failed || event is Drained) ==> now is DrainingControl
            &&& was is DrainingFrames && !failed && event is Frame ==> now is DrainingFrames
            &&& was is DrainingControl && (failed || event is Drained) ==> now is Flushing
            &&& was is DrainingControl && !failed && event is Control ==> now is DrainingControl
            &&& was is Flushing && failed ==> now is Done
            &&& was is Flushing && !failed && event is Flushed ==> now is Waiting
            &&& final(stats).ipc_tx_frames as int == (old(stats).ipc_tx_frames + if event is Frame
                && !failed {
                1int
            } else {
                0int
            }) % 0x1_0000_0000_0000_0000
            &&& final(stats).ipc_tx_errors as int == (old(stats).ipc_tx_errors + if event is Frame
                && failed {
                1int
            } else {
                0int
            }) % 0x1_0000_0000_0000_0000
            &&& final(stats).ipc_rx_frames == old(stats).ipc_rx_frames
            &&& final(stats).ipc_rx_dropped == old(stats).ipc_rx_dropped
            &&& final(stats).device_tx_frames == old(stats).device_tx_frames
        }),
{
}

/// Commands are numbered from one on. Each goes out under its number and otherwise
/// as it is, and whoever waits for its answer is kept under the same number.
pub proof fn commands_are_numbered<T>(
    fresh: PendingResponses<T>,
    pending: &mut PendingResponses<T>,
    command: ProxyCommand,
    token: T,
    numbered: ProxyCommand,
)
    requires
        call_ensures(PendingResponses::<T>::new, (), fresh),
        call_ensures(PendingResponses::<T>::register, (pending, command, token), numbered),
    ensures
        fresh.next_id == 1,
        forall|id: u64| !(#[trigger] fresh.waiting@.contains_key(id)),
        ({
            let number = old(pending).next_id;
            &&& match (command, numbered) {
                (
                    ProxyCommand::AddRoute { destination, prefix_len, .. },
                    ProxyCommand::AddRoute { id, destination: to, prefix_len: len },
                ) => id == number && to == destination && len == prefix_len,
                (
                    ProxyCommand::RemoveRoute { destination, prefix_len, .. },
                    ProxyCommand::RemoveRoute { id, destination: to, prefix_len: len },
                ) => id == number && to == destination && len == prefix_len,
                (ProxyCommand::GetIfaceStats { .. }, ProxyCommand::GetIfaceStats { id }) => id
                    == number,
                _ => false,
            }
            &&& final(pending).waiting@.contains_key(number)
            &&& final(pending).waiting@[number] == token
            &&& forall|id: u64|
                id != number ==> {
                    &&& #[trigger] final(pending).waiting@.contains_key(id) == old(
                        pending).waiting@.contains_key(id)
                    &&& old(pending).waiting@.contains_key(id) ==> final(pending).waiting@[id]
                        == old(pending).waiting@[id]
                }
            &&& number < u64::MAX ==> final(pending).next_id == number + 1
            &&& number == u64::MAX ==> final(pending).next_id == 0
        }),
{
    assert forall|id: u64| !(#[trigger] fresh.waiting@.contains_key(id)) by {
        assert(!fresh.view().dom().contains(id));
    }
}

/// An answer goes to whoever is kept under its number, who then does not wait any
/// more. The others go on waiting.
pub proof fn answers_go_by_their_number<T>(
    pending: &mut PendingResponses<T>,
    id: u64,
    token: Option<T>,
)
    requires
        call_ensures(PendingResponses::<T>::resolve, (pending, id), token),
    ensures
        token is Some <==> old(pending).waiting@.contains_key(id),
        token matches Some(token) ==> token == old(pending).waiting@[id],
        !final(pending).waiting@.contains_key(id),
        forall|other: u64|
            other != id ==> {
                &&& #[trigger] final(pending).waiting@.contains_key(other) == old(
                    pending).waiting@.contains_key(other)
                &&& old(pending).waiting@.contains_key(other) ==> final(pending).waiting@[other]
                    == old(pending).waiting@[other]
            },
        final(pending).next_id == old(pending).next_id,
{
}

/// A route command succeeds just where the proxy says so, and fails with the proxy's
/// words.
pub proof fn routes_go_as_the_proxy_says(reply: ProxyReply, result: Result<(), Error>)
    requires
        call_ensures(route_result, (reply,), result),
    ensures
        result is Ok <==> (reply is Status && reply->Status_0.error is None),
        result matches Err(error) ==> error.kind == ErrorKind::Other,
        reply matches ProxyReply::Status(response) ==> (response.error matches Some(message) ==> (
        result matches Err(error) && error.message@ == message@)),
        reply is IfaceStats ==> (result matches Err(error) && error.message@
            == "unexpected response"@),
{
}

/// Statistics are handed on as the proxy tells them; a refusal is an error with the
/// proxy's words.
pub proof fn statistics_are_handed_on(
    reply: ProxyReply,
    result: Result<InterfaceEntries, Error>,
)
    requires
        call_ensures(iface_stats_result, (reply,), result),
    ensures
        result is Ok <==> reply is IfaceStats,
        reply matches ProxyReply::IfaceStats { interfaces, .. } ==> (result matches Ok(entries)
            && entries == interfaces),
        result matches Err(error) ==> error.kind == ErrorKind::Other,
        reply matches ProxyReply::Status(response) ==> (response.error matches Some(message) ==> (
        result matches Err(error) && error.message@ == message@)),
        reply is Status && reply->Status_0.error is None ==> (result matches Err(error)
            && error.message@ == "unexpected response"@),
{
}

/// Of all calls to close, the first one has to tear the tunnel down, and no other.
pub proof fn tunnels_are_torn_down_once(fresh: CloseFlag, flag: &mut CloseFlag, first: bool)
    requires
        call_ensures(CloseFlag::new, (), fresh),
        call_ensures(CloseFlag::close, (flag,), first),
    ensures
        !fresh.closed,
        first <==> !old(flag).closed,
        final(flag).closed,
{
}

} // verus!
