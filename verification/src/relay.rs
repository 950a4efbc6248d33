//! The proxy's side: frames between the TAP interface and the client, commands
//! and their answers.

use vstd::prelude::*;

use crate::addr::{IpAddr, IpWithPrefix};
use crate::bytes;
use crate::config::TapConfig;
use crate::error::{broken_pipe, invalid_input, Error, ErrorKind};
use crate::ether::{self, Mac};
use crate::procnet::{self, parse_net_dev, InterfaceEntries};
use crate::protocol::{
    self, decode_message, encode_frame, length_prefix, Message, ProxyCommand, ProxyConfig,
    ProxyResponse,
};
use crate::stack::channels::SendOutcome;

verus! {

/// Room for a message beyond the largest frame.
pub const MESSAGE_MARGIN: usize = 16;

/// How often frames that were dropped are reported.
pub const REPORT_EVERY: u64 = 1000;

/// The proxy's answer to a command.
#[derive(Debug)]
pub enum ProxyReply {
    /// Whether the command succeeded.
    Status(ProxyResponse),
    /// The statistics that were asked for.
    IfaceStats { id: u64, interfaces: InterfaceEntries },
}

impl ProxyReply {
    pub open spec fn spec_id(&self) -> u64 {
        match self {
            ProxyReply::Status(response) => response.id,
            ProxyReply::IfaceStats { id, .. } => *id,
        }
    }

    /// The id of the command that is answered.
    #[verifier::when_used_as_spec(spec_id)]
    pub fn id(&self) -> (id: u64)
        ensures
            id == self.spec_id(),
    {
        match self {
            ProxyReply::Status(response) => response.id,
            ProxyReply::IfaceStats { id, .. } => *id,
        }
    }
}

/// What came of carrying out a command.
#[derive(Debug)]
pub enum CommandOutcome {
    /// A route was changed, or why not.
    Route(Result<(), String>),
    /// The kernel's list of interfaces, or why it cannot be read.
    NetDev(Result<String, String>),
}

/// The outcome is one that the command can have.
pub open spec fn outcome_fits(command: ProxyCommand, outcome: CommandOutcome) -> bool {
    command is GetIfaceStats == outcome is NetDev
}

/// What a command is answered with, given what came of it.
pub open spec fn answers(command: ProxyCommand, outcome: CommandOutcome, reply: ProxyReply) -> bool {
    &&& reply.spec_id() == command.spec_id()
    &&& match outcome {
        CommandOutcome::Route(Ok(())) => reply matches ProxyReply::Status(response)
            && response.error is None,
        CommandOutcome::Route(Err(message)) => reply matches ProxyReply::Status(response)
            && response.error == Some(message),
        CommandOutcome::NetDev(Ok(content)) => reply matches ProxyReply::IfaceStats {
            interfaces,
            ..
        } && procnet::entries_map(interfaces@) == procnet::net_dev(content@)
            && procnet::distinct_names(interfaces@),
        CommandOutcome::NetDev(Err(message)) => reply matches ProxyReply::Status(response)
            && response.error == Some(message),
    }
}

/// Answer a command, given what came of it.
pub fn answer_command(command: ProxyCommand, outcome: CommandOutcome) -> (reply: ProxyReply)
    requires
        outcome_fits(command, outcome),
    ensures
        answers(command, outcome, reply),
{
    let id: u64 = command.id();
    match outcome {
        CommandOutcome::Route(Ok(())) => ProxyReply::Status(ProxyResponse::ok(id)),
        CommandOutcome::Route(Err(message)) => ProxyReply::Status(
            ProxyResponse::error(id, message),
        ),
        CommandOutcome::NetDev(Ok(content)) => ProxyReply::IfaceStats {
            id,
            interfaces: parse_net_dev(content.as_str()),
        },
        CommandOutcome::NetDev(Err(message)) => ProxyReply::Status(
            ProxyResponse::error(id, message),
        ),
    }
}

/// The JSON of the client's hello, if the message is a control message.
pub fn hello_payload(message: &[u8]) -> (result: Result<Vec<u8>, Error>)
    ensures
        match result {
            Ok(payload) => message@ == protocol::encoded(protocol::MSG_TYPE_CONTROL, payload@),
            Err(error) => {
                &&& message@.len() == 0 || message@[0] != protocol::MSG_TYPE_CONTROL
                &&& error.reads(
                    ErrorKind::InvalidData,
                    protocol::not_control_text(message@, "expected ClientHello, got frame"@),
                )
            },
        },
{
    protocol::control_payload(message, "expected ClientHello, got frame")
}

/// What the proxy tells of itself. It needs an address.
pub fn proxy_identity(config: &TapConfig, tap_mac: Mac) -> (result: Result<ProxyConfig, Error>)
    ensures
        match config.peer_addr {
            Some((tap_ip, prefix_len)) => result == Ok::<ProxyConfig, Error>(
                ProxyConfig { tap_ip, tap_mac, prefix_len, mtu: config.mtu },
            ),
            None => result is Err && result->Err_0.reads(
                ErrorKind::InvalidInput,
                "tap_addr must be configured"@,
            ),
        },
{
    match config.peer_addr {
        Some((tap_ip, prefix_len)) => Ok(
            ProxyConfig { tap_ip, tap_mac, prefix_len, mtu: config.mtu },
        ),
        None => Err(invalid_input("tap_addr must be configured")),
    }
}

/// The frame that announces the TAP interface to the client.
pub open spec fn announcement(ip: crate::addr::Ipv4Addr, tap_mac: Seq<u8>) -> Seq<u8> {
    ether::eth_header(ether::broadcast(), tap_mac, ether::ETHERTYPE_ARP) + ether::arp_packet(
        ether::ARP_REPLY,
        tap_mac,
        ip,
        ether::broadcast(),
        ip,
    )
}

/// What to send to the client before the relay begins: the announcement of an
/// IPv4 address. IPv6 has other ways.
pub fn announce(peer_addr: Option<IpWithPrefix>, tap_mac: Mac) -> (out: Option<Vec<u8>>)
    ensures
        match peer_addr {
            Some((IpAddr::V4(ip), _)) => out is Some && out->0@ == protocol::framed(
                protocol::encoded(protocol::MSG_TYPE_FRAME, announcement(ip, tap_mac@)),
            ),
            _ => out is None,
        },
{
    match peer_addr {
        Some((IpAddr::V4(ip), _)) => {
            let frame = ether::build_gratuitous_arp(tap_mac, ip, ether::broadcast_mac());
            let message = encode_frame(&frame);
            let mut out = length_prefix(message.len() as u32);
            bytes::append(&mut out, &message);
            Some(out)
        },
        _ => None,
    }
}

/// The message for a frame that was read from the TAP interface; nothing once
/// the interface is closed.
pub fn tap_frame_message(data: &[u8]) -> (message: Option<Vec<u8>>)
    ensures
        match message {
            Some(message) => data@.len() > 0 && message@ == protocol::encoded(
                protocol::MSG_TYPE_FRAME,
                data@,
            ),
            None => data@.len() == 0,
        },
{
    if data.len() == 0 {
        None
    } else {
        Some(encode_frame(data))
    }
}

/// What to do after a frame from the TAP interface was handed to the client's
/// channel.
#[derive(Clone, Copy, Debug, PartialEq, Eq, Structural)]
pub enum TapStep {
    GoOn,
    /// Report how many frames were dropped so far.
    Report(u64),
    Stop,
}

/// Counts frames that found the channel full.
#[derive(Debug)]
pub struct TapReader {
    pub dropped: u64,
}

impl TapReader {
    pub fn new() -> (reader: TapReader)
        ensures
            reader.dropped == 0,
    {
        TapReader { dropped: 0 }
    }

    /// Take note of what came of handing a frame over. The first frame that is
    /// dropped is reported, and every thousandth after it.
    pub fn handed_over(&mut self, outcome: SendOutcome) -> (step: TapStep)
        requires
            old(self).dropped < u64::MAX,
        ensures
            final(self).dropped == old(self).dropped + if outcome == SendOutcome::Full {
                1int
            } else {
                0int
            },
            step == match outcome {
                SendOutcome::Sent => TapStep::GoOn,
                SendOutcome::Full => if final(self).dropped % REPORT_EVERY == 1 {
                    TapStep::Report(final(self).dropped)
                } else {
                    TapStep::GoOn
                },
                SendOutcome::Closed => TapStep::Stop,
            },
    {
        match outcome {
            SendOutcome::Sent => TapStep::GoOn,
            SendOutcome::Full => {
                self.dropped = self.dropped + 1;
                if self.dropped % REPORT_EVERY == 1 {
                    TapStep::Report(self.dropped)
                } else {
                    TapStep::GoOn
                }
            },
            SendOutcome::Closed => TapStep::Stop,
        }
    }
}

/// Where the writer of messages to the client stands. It waits for a message,
/// writes what else there is, and then sends it all off.
#[derive(Clone, Copy, Debug, PartialEq, Eq, Structural)]
pub enum RelayPhase {
    Waiting,
    DrainingFrames,
    DrainingAnswers,
    Flushing,
    /// No more frames will come; what was written is still sent off.
    LastFlush,
    Done,
}

/// What the writer has come to.
#[derive(Clone, Copy, Debug, PartialEq, Eq, Structural)]
pub enum RelayWrite {
    /// A frame was written, or could not be.
    Frame { written: bool },
    /// An answer to a command was written, or could not be.
    Answer { written: bool },
    /// Nothing is left to drain.
    Drained,
    /// Everything was sent off, or could not be.
    Flushed { written: bool },
    /// The TAP interface has no more frames.
    FramesClosed,
}

/// The writer of messages to the client.
#[derive(Debug)]
pub struct RelayWriter {
    pub phase: RelayPhase,
}

impl RelayWriter {
    pub fn new() -> (writer: RelayWriter)
        ensures
            writer.phase == RelayPhase::Waiting,
    {
        RelayWriter { phase: RelayPhase::Waiting }
    }

    /// The event can come about in this phase.
    pub open spec fn expects(&self, event: RelayWrite) -> bool {
        match self.phase {
            RelayPhase::Waiting => event is Frame || event is Answer || event is FramesClosed,
            RelayPhase::DrainingFrames => event is Frame || event is Drained,
            RelayPhase::DrainingAnswers => event is Answer || event is Drained,
            RelayPhase::Flushing => event is Flushed,
            RelayPhase::LastFlush => event is Flushed,
            RelayPhase::Done => false,
        }
    }

    /// Something could not be written.
    pub open spec fn failed(event: RelayWrite) -> bool {
        match event {
            RelayWrite::Frame { written } => !written,
            RelayWrite::Answer { written } => !written,
            RelayWrite::Flushed { written } => !written,
            _ => false,
        }
    }

    /// The phase after an event. A failure is the end at once.
    pub open spec fn phase_after(&self, event: RelayWrite) -> RelayPhase {
        if Self::failed(event) {
            RelayPhase::Done
        } else {
            match self.phase {
                RelayPhase::Waiting => if event is FramesClosed {
                    RelayPhase::LastFlush
                } else {
                    RelayPhase::DrainingFrames
                },
                RelayPhase::DrainingFrames => if event is Drained {
                    RelayPhase::DrainingAnswers
                } else {
                    RelayPhase::DrainingFrames
                },
                RelayPhase::DrainingAnswers => if event is Drained {
                    RelayPhase::Flushing
                } else {
                    RelayPhase::DrainingAnswers
                },
                RelayPhase::Flushing => RelayPhase::Waiting,
                RelayPhase::LastFlush => RelayPhase::Done,
                RelayPhase::Done => RelayPhase::Done,
            }
        }
    }

    /// Take note of an event.
    pub fn on_event(&mut self, event: RelayWrite)
        requires
            old(self).expects(event),
        ensures
            final(self).phase == old(self).phase_after(event),
    {
        let failed: bool = match event {
            RelayWrite::Frame { written } => !written,
            RelayWrite::Answer { written } => !written,
            RelayWrite::Flushed { written } => !written,
            _ => false,
        };
        self.phase = if failed {
            RelayPhase::Done
        } else {
            match (self.phase, event) {
                (RelayPhase::Waiting, RelayWrite::FramesClosed) => RelayPhase::LastFlush,
                (RelayPhase::Waiting, _) => RelayPhase::DrainingFrames,
                (RelayPhase::DrainingFrames, RelayWrite::Drained) => RelayPhase::DrainingAnswers,
                (RelayPhase::DrainingFrames, _) => RelayPhase::DrainingFrames,
                (RelayPhase::DrainingAnswers, RelayWrite::Drained) => RelayPhase::Flushing,
                (RelayPhase::DrainingAnswers, _) => RelayPhase::DrainingAnswers,
                (RelayPhase::Flushing, _) => RelayPhase::Waiting,
                (RelayPhase::LastFlush, _) => RelayPhase::Done,
                (RelayPhase::Done, _) => RelayPhase::Done,
            }
        };
    }
}

/// Nothing stays unsent while the writer waits: since the last message it wrote,
/// it has sent off everything.
pub proof fn nothing_stays_unsent(states: Seq<RelayWriter>, events: Seq<RelayWrite>, last: int)
    requires
        states.len() == events.len() + 1,
        states[0].phase == RelayPhase::Waiting,
        forall|i: int|
            0 <= i < events.len() ==> (#[trigger] states[i]).expects(events[i]) && states[i
                + 1].phase == states[i].phase_after(events[i]),
        states.last().phase == RelayPhase::Waiting,
        0 <= last < events.len(),
        events[last] is Frame || events[last] is Answer,
    ensures
        exists|i: int| last < i < events.len() && #[trigger] events[i] == (RelayWrite::Flushed {
            written: true,
        }),
{
    let n = events.len() - 1;
    assert(states[n].expects(events[n]) && states[n + 1].phase == states[n].phase_after(events[n]));
    assert(events[n] == (RelayWrite::Flushed { written: true }));
}

/// Whether a message of this length is read at all: it has something in it, and
/// is not much longer than the largest frame.
pub fn accepts_length(len: u32, max_frame_size: usize) -> (yes: bool)
    requires
        max_frame_size <= usize::MAX - MESSAGE_MARGIN,
    ensures
        yes == (0 < len <= max_frame_size + MESSAGE_MARGIN),
{
    len > 0 && len as usize <= max_frame_size + MESSAGE_MARGIN
}

/// What to do with a message from the client.
#[derive(Debug)]
pub enum ClientStep {
    /// Write the frame to the TAP interface.
    WriteTap(Vec<u8>),
    /// Decode the JSON of a command, carry it out and answer it.
    Command(Vec<u8>),
    /// The message makes no sense and is left.
    Ignore(Error),
}

/// Decide what to do with a message from the client.
pub fn client_message(message: &[u8]) -> (step: ClientStep)
    ensures
        match step {
            ClientStep::WriteTap(frame) => message@ == protocol::encoded(
                protocol::MSG_TYPE_FRAME,
                frame@,
            ),
            ClientStep::Command(payload) => message@ == protocol::encoded(
                protocol::MSG_TYPE_CONTROL,
                payload@,
            ),
            ClientStep::Ignore(error) => {
                &&& message@.len() == 0 || message@[0] != protocol::MSG_TYPE_FRAME && message@[0]
                    != protocol::MSG_TYPE_CONTROL
                &&& error.reads(ErrorKind::InvalidData, protocol::fault_text(message@))
            },
        },
{
    match decode_message(message) {
        Ok(Message::Frame(frame)) => ClientStep::WriteTap(frame),
        Ok(Message::Control(payload)) => ClientStep::Command(payload),
        Err(error) => ClientStep::Ignore(error),
    }
}

/// What happened to a relay between a TAP interface and a socket for IP packets.
#[derive(Debug)]
pub enum RelayEvent {
    /// A frame was read from the TAP interface.
    TapFrame(Vec<u8>),
    /// The TAP interface has hung up or failed.
    TapGone,
    /// A packet was read from the socket, or its end.
    SocketPacket(Vec<u8>),
    /// The other end of the socket has hung up.
    SocketHangUp,
    /// The socket has failed.
    SocketError,
    /// A read or write would have had to wait.
    WouldBlock,
}

/// What a relay does next.
#[derive(Debug)]
pub enum RelayAction {
    GoOn,
    /// Send an IP packet through the socket.
    SendPacket(Vec<u8>),
    /// Write a frame to the TAP interface.
    WriteFrame(Vec<u8>),
    /// End, since the other side has.
    Exit,
    Fail(Error),
}

/// What a relay does on an event: frames lose their header on the way to the
/// socket, packets get one on the way back.
pub open spec fn relays(event: RelayEvent, tap_mac: Seq<u8>, action: RelayAction) -> bool {
    match event {
        RelayEvent::TapFrame(frame) => if frame@.len() > ether::ETH_HEADER_SIZE {
            action matches RelayAction::SendPacket(packet) && packet@ == frame@.skip(
                ether::ETH_HEADER_SIZE as int,
            )
        } else {
            action is GoOn
        },
        RelayEvent::TapGone => action matches RelayAction::Fail(error) && error.reads(
            ErrorKind::BrokenPipe,
            "TAP device closed"@,
        ),
        RelayEvent::SocketPacket(packet) => if packet@.len() > 0 {
            action matches RelayAction::WriteFrame(frame) && frame@ == ether::in_frame(
                packet@,
                tap_mac,
            )
        } else {
            action is Exit
        },
        RelayEvent::SocketHangUp => action is Exit,
        RelayEvent::SocketError => action matches RelayAction::Fail(error) && error.reads(
            ErrorKind::BrokenPipe,
            "socket error"@,
        ),
        RelayEvent::WouldBlock => action is GoOn,
    }
}

/// Decide what a relay does on an event.
pub fn relay_step(event: RelayEvent, tap_mac: &Mac) -> (action: RelayAction)
    ensures
        relays(event, tap_mac@, action),
{
    match event {
        RelayEvent::TapFrame(frame) => match ether::unwrap_packet(&frame) {
            Some(packet) => RelayAction::SendPacket(packet),
            None => RelayAction::GoOn,
        },
        RelayEvent::TapGone => RelayAction::Fail(broken_pipe("TAP device closed")),
        RelayEvent::SocketPacket(packet) => {
            if packet.len() == 0 {
                RelayAction::Exit
            } else {
                RelayAction::WriteFrame(ether::wrap_packet(&packet, tap_mac))
            }
        },
        RelayEvent::SocketHangUp => RelayAction::Exit,
        RelayEvent::SocketError => RelayAction::Fail(broken_pipe("socket error")),
        RelayEvent::WouldBlock => RelayAction::GoOn,
    }
}

/// The MAC address of a TAP interface that does not tell its own.
pub fn fallback_tap_mac() -> (mac: Mac)
    ensures
        mac@ == seq![0x02u8, 0, 0, 0, 0, 1],
{
    let mac: Mac = [0x02, 0x00, 0x00, 0x00, 0x00, 0x01];
    assert(mac@ =~= seq![0x02u8, 0, 0, 0, 0, 1]);
    mac
}

/// Every command is answered under its own id: a route command with how it went, a
/// question for statistics with what the kernel's list says, or with why it could
/// not be read.
pub proof fn commands_are_answered_under_their_id(
    command: ProxyCommand,
    outcome: CommandOutcome,
    reply: ProxyReply,
    content: &str,
    entries: InterfaceEntries,
    id: u64,
)
    requires
        call_ensures(answer_command, (command, outcome), reply),
        outcome matches CommandOutcome::NetDev(Ok(list)) ==> content@ == list@,
        call_ensures(parse_net_dev, (content,), entries),
        call_ensures(ProxyReply::id, (&reply,), id),
    ensures
        id == match command {
            ProxyCommand::AddRoute { id, .. } => id,
            ProxyCommand::RemoveRoute { id, .. } => id,
            ProxyCommand::GetIfaceStats { id } => id,
        },
        id == match reply {
            ProxyReply::Status(response) => response.id,
            ProxyReply::IfaceStats { id, .. } => id,
        },
        match outcome {
            CommandOutcome::Route(Ok(_)) => reply matches ProxyReply::Status(response)
                && response.error is None,
            CommandOutcome::Route(Err(message)) => reply matches ProxyReply::Status(response)
                && response.error == Some(message),
            CommandOutcome::NetDev(Err(message)) => reply matches ProxyReply::Status(response)
                && response.error == Some(message),
            CommandOutcome::NetDev(Ok(_)) => reply matches ProxyReply::IfaceStats {
                interfaces,
                ..
            } && forall|name: Seq<char>, stats: procnet::InterfaceStats|
                #[trigger] procnet::listed(interfaces@, name, stats) <==> procnet::listed(
                    entries@,
                    name,
                    stats,
                ),
        },
{
    match reply {
        ProxyReply::IfaceStats { interfaces, .. } => {
            assert forall|name: Seq<char>, stats: procnet::InterfaceStats|
                #[trigger] procnet::listed(interfaces@, name, stats) <==> procnet::listed(
                    entries@,
                    name,
                    stats,
                ) by {
                procnet::lemma_listed(interfaces@, name, stats);
                procnet::lemma_listed(entries@, name, stats);
            }
        },
        _ => {},
    }
}

/// A hello is a control message, and its text is all that follows the first byte.
/// Anything else is refused.
pub proof fn hellos_are_control_messages(message: &[u8], result: Result<Vec<u8>, Error>)
    requires
        call_ensures(hello_payload, (message,), result),
    ensures
        result is Ok <==> message@.len() > 0 && message@[0] == 0,
        result matches Ok(payload) ==> payload@ == message@.skip(1),
        result matches Err(error) ==> error.kind == ErrorKind::InvalidData,
        message@.len() > 0 && message@[0] == 1 ==> (result matches Err(error) && error.message@
            == "expected ClientHello, got frame"@),
        message@.len() == 0 ==> (result matches Err(error) && error.message@ == "empty message"@),
{
    match result {
        Ok(payload) => {
            assert(message@.skip(1) =~= payload@);
        },
        Err(_) => {},
    }
}

/// The proxy tells the address, the prefix and the MTU that it is configured with,
/// and the interface's MAC address. Without an address it has nothing to tell.
pub proof fn the_proxy_tells_its_configuration(
    config: &TapConfig,
    tap_mac: Mac,
    result: Result<ProxyConfig, Error>,
)
    requires
        call_ensures(proxy_identity, (config, tap_mac), result),
    ensures
        result is Ok <==> config.peer_addr is Some,
        result matches Ok(told) ==> {
            &&& config.peer_addr == Some((told.tap_ip, told.prefix_len))
            &&& told.tap_mac == tap_mac
            &&& told.mtu == config.mtu
        },
        result matches Err(error) ==> error.kind == ErrorKind::InvalidInput && error.message@
            == "tap_addr must be configured"@,
{
}

/// An IPv4 address is announced to all hosts, in a frame message behind its length;
/// an IPv6 address is not.
pub proof fn ipv4_addresses_are_announced(
    peer_addr: Option<IpWithPrefix>,
    tap_mac: Mac,
    out: Option<Vec<u8>>,
    all: Mac,
    frame: Vec<u8>,
    slice: &[u8],
    message: Vec<u8>,
    prefix: Vec<u8>,
)
    requires
        call_ensures(announce, (peer_addr, tap_mac), out),
        all@ == seq![0xffu8, 0xff, 0xff, 0xff, 0xff, 0xff],
        peer_addr matches Some((IpAddr::V4(ip), _)) ==> call_ensures(
            ether::build_gratuitous_arp,
            (tap_mac, ip, all),
            frame,
        ),
        slice@ == frame@,
        call_ensures(encode_frame, (slice,), message),
        call_ensures(length_prefix, (message@.len() as u32,), prefix),
    ensures
        out is Some <==> (peer_addr matches Some((IpAddr::V4(_), _))),
        out matches Some(sent) ==> sent@ == prefix@ + message@,
{
}

/// A frame from the TAP interface becomes a frame message that holds all of it; an
/// empty one is the end.
pub proof fn tap_frames_become_messages(data: &[u8], message: Option<Vec<u8>>)
    requires
        call_ensures(tap_frame_message, (data,), message),
    ensures
        message is None <==> data@.len() == 0,
        message matches Some(message) ==> message@.len() == data@.len() + 1 && message@[0] == 1
            && message@.skip(1) == data@,
{
    match message {
        Some(message) => {
            assert(message@.skip(1) =~= data@);
        },
        None => {},
    }
}

/// Only frames that find the channel full are counted as dropped. The first of them
/// is reported, and then every thousandth; only a channel that is gone ends it.
pub proof fn dropped_frames_are_reported_at_times(
    fresh: TapReader,
    reader: &mut TapReader,
    outcome: SendOutcome,
    step: TapStep,
)
    requires
        call_ensures(TapReader::new, (), fresh),
        call_ensures(TapReader::handed_over, (reader, outcome), step),
    ensures
        fresh.dropped == 0,
        outcome is Full ==> final(reader).dropped == old(reader).dropped + 1,
        !(outcome is Full) ==> final(reader).dropped == old(reader).dropped,
        step is Stop <==> outcome is Closed,
        step is Report <==> outcome is Full && old(reader).dropped % 1000 == 0,
        step matches TapStep::Report(count) ==> count == old(reader).dropped + 1,
{
}

/// The writer waits for a message, then takes all frames and all answers that are
/// there, and sends them off before it waits again. A failure ends it at once;
/// where the frames end, what was written is still sent off.
pub proof fn relay_writers_send_off_what_they_wrote(
    fresh: RelayWriter,
    writer: &mut RelayWriter,
    event: RelayWrite,
)
    requires
        call_ensures(RelayWriter::new, (), fresh),
        call_ensures(RelayWriter::on_event, (writer, event), ()),
    ensures
        fresh.phase is Waiting,
        ({
            let was = old(writer).phase;
            let now = final(writer).phase;
            let failed = match event {
                RelayWrite::Frame { written } => !written,
                RelayWrite::Answer { written } => !written,
                RelayWrite::Flushed { written } => !written,
                _ => false,
            };
            &&& failed ==> now is Done
            &&& !failed && was is Waiting && (event is Frame || event is Answer)
                ==> now is DrainingFrames
            &&& !failed && was is Waiting && event is FramesClosed ==> now is LastFlush
            &&& !failed && was is DrainingFrames && event is Frame ==> now is DrainingFrames
            &&& !failed && was is DrainingFrames && event is Drained ==> now is DrainingAnswers
            &&& !failed && was is DrainingAnswers && event is Answer ==> now is DrainingAnswers
            &&& !failed && was is DrainingAnswers && event is Drained ==> now is Flushing
            &&& !failed && was is Flushing && event is Flushed ==> now is Waiting
            &&& !failed && was is LastFlush && event is Flushed ==> now is Done
        }),
{
}

/// A message is read if it is not empty and has at most 16 bytes more than the
/// largest frame.
pub proof fn lengths_are_limited_by_the_frame(len: u32, max_frame_size: usize, yes: bool)
    requires
        call_ensures(accepts_length, (len, max_frame_size), yes),
    ensures
        yes <==> len != 0 && len <= max_frame_size + 16,
{
}

/// Frames of the client go to the TAP interface and its control messages are
/// commands, without the first byte and otherwise as they are. Nothing else is
/// acted on.
pub proof fn clients_are_heard(message: &[u8], step: ClientStep)
    requires
        call_ensures(client_message, (message,), step),
    ensures
        step is WriteTap <==> message@.len() > 0 && message@[0] == 1,
        step is Command <==> message@.len() > 0 && message@[0] == 0,
        step matches ClientStep::WriteTap(frame) ==> frame@ == message@.skip(1),
        step matches ClientStep::Command(payload) ==> payload@ == message@.skip(1),
        step matches ClientStep::Ignore(error) ==> error.kind == ErrorKind::InvalidData,
{
    match step {
        ClientStep::WriteTap(frame) => {
            assert(message@.skip(1) =~= frame@);
        },
        ClientStep::Command(payload) => {
            assert(message@.skip(1) =~= payload@);
        },
        ClientStep::Ignore(_) => {},
    }
}

/// A relay sends what follows the header of a frame, and puts a header in front of
/// a packet for the TAP interface. It ends with the socket, and fails with the
/// interface or with an error of the socket.
pub proof fn relays_take_headers_off_and_put_them_on(
    event: RelayEvent,
    tap_mac: &Mac,
    action: RelayAction,
    slice: &[u8],
    wrapped: Vec<u8>,
)
    requires
        call_ensures(relay_step, (event, tap_mac), action),
        event matches RelayEvent::SocketPacket(packet) ==> slice@ == packet@,
        call_ensures(ether::wrap_packet, (slice, tap_mac), wrapped),
    ensures
        match event {
            RelayEvent::TapFrame(frame) => {
                &&& frame@.len() > 14 ==> (action matches RelayAction::SendPacket(packet)
                    && packet@ == frame@.skip(14))
                &&& frame@.len() <= 14 ==> action is GoOn
            },
            RelayEvent::TapGone => action matches RelayAction::Fail(error) && error.kind
                == ErrorKind::BrokenPipe && error.message@ == "TAP device closed"@,
            RelayEvent::SocketPacket(packet) => {
                &&& packet@.len() > 0 ==> (action matches RelayAction::WriteFrame(frame) && frame@
                    == wrapped@)
                &&& packet@.len() == 0 ==> action is Exit
            },
            RelayEvent::SocketHangUp => action is Exit,
            RelayEvent::SocketError => action matches RelayAction::Fail(error) && error.kind
                == ErrorKind::BrokenPipe && error.message@ == "socket error"@,
            RelayEvent::WouldBlock => action is GoOn,
        },
{
}

/// The MAC address that stands in for an unknown one is of a single host and locally
/// administered.
pub proof fn the_fallback_is_local(mac: Mac)
    requires
        call_ensures(fallback_tap_mac, (), mac),
    ensures
        mac@[0] == 2 && mac@[1] == 0 && mac@[2] == 0 && mac@[3] == 0 && mac@[4] == 0 && mac@[5]
            == 1,
{
}

} // verus!
