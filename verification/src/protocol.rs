//! Protocol for communication between library and proxy.
//!
//! All messages are prefixed with a 1-byte type:
//! - 0x00: Control message (JSON payload)
//! - 0x01: Ethernet frame (raw bytes)
//!
//! On a stream, each message follows its length.

use vstd::prelude::*;

use crate::addr::{IpAddr, Ipv4Addr, Ipv6Addr};
use crate::bytes;
use crate::error::{invalid_data, invalid_input, unexpected_eof, Error, ErrorKind};
use crate::ip_text;
use crate::text;

verus! {

/// Size of the length prefix in bytes (4 bytes, little-endian u32).
pub const LENGTH_PREFIX_SIZE: usize = 4;

/// Maximum message size (16 MB safety limit).
pub const MAX_MESSAGE_SIZE: usize = 16 * 1024 * 1024;

/// Message type byte for control messages.
pub const MSG_TYPE_CONTROL: u8 = 0x00;

/// Message type byte for Ethernet frames.
pub const MSG_TYPE_FRAME: u8 = 0x01;

/// MTU of a TAP interface whose proxy does not tell it.
pub const DEFAULT_MTU: u16 = 1500;

/// Client hello message sent at connection start.
///
/// This is empty, which leaves room for version negotiation or capability
/// flags.
#[derive(Clone, Copy, Debug)]
pub struct ClientHello {}

impl Default for ClientHello {
    fn default() -> (hello: ClientHello)
        ensures
            hello == (ClientHello {}),
    {
        ClientHello {  }
    }
}

/// Proxy configuration sent to client after handshake.
///
/// The proxy only provides its identity (TAP IP, MAC, prefix).
/// The client is responsible for picking and managing its own IPs from the subnet.
#[derive(Clone, Copy, Debug)]
pub struct ProxyConfig {
    /// IP address of the TAP interface (gateway for client).
    pub tap_ip: IpAddr,
    /// MAC address of the TAP interface.
    pub tap_mac: [u8; 6],
    /// Subnet prefix length.
    pub prefix_len: u8,
    /// IP-level MTU of the TAP interface.
    pub mtu: u16,
}

/// A MAC address as hexadecimal bytes with hyphens between them.
pub open spec fn mac_text(mac: Seq<u8>) -> Seq<char> {
    text::hex(mac[0]) + seq!['-'] + text::hex(mac[1]) + seq!['-'] + text::hex(mac[2]) + seq!['-']
        + text::hex(mac[3]) + seq!['-'] + text::hex(mac[4]) + seq!['-'] + text::hex(mac[5])
}

fn mac_to_text(mac: &[u8; 6]) -> (out: String)
    ensures
        out@ == mac_text(mac@),
{
    let mut out = text::to_hex(mac[0]);
    text::push_char(&mut out, '-');
    out.append(text::to_hex(mac[1]).as_str());
    text::push_char(&mut out, '-');
    out.append(text::to_hex(mac[2]).as_str());
    text::push_char(&mut out, '-');
    out.append(text::to_hex(mac[3]).as_str());
    text::push_char(&mut out, '-');
    out.append(text::to_hex(mac[4]).as_str());
    text::push_char(&mut out, '-');
    out.append(text::to_hex(mac[5]).as_str());
    assert(out@ =~= mac_text(mac@));
    out
}

impl ProxyConfig {
    /// The configuration in one line.
    pub open spec fn text(self) -> Seq<char> {
        "tap_ip="@ + ip_text::ip_text(self.tap_ip) + ", tap_mac="@ + mac_text(self.tap_mac@)
            + ", prefix_len="@ + text::decimal(self.prefix_len as nat) + ", mtu="@ + text::decimal(
            self.mtu as nat,
        )
    }

    /// Write the configuration in one line.
    pub fn to_text(&self) -> (out: String)
        ensures
            out@ == self.text(),
    {
        let mut out = text::join("tap_ip=", ip_text::ip_to_text(self.tap_ip).as_str());
        out.append(", tap_mac=");
        out.append(mac_to_text(&self.tap_mac).as_str());
        out.append(", prefix_len=");
        out.append(text::to_decimal(self.prefix_len as u64).as_str());
        out.append(", mtu=");
        out.append(text::to_decimal(self.mtu as u64).as_str());
        out
    }
}

/// The MTU that the proxy tells, or the usual one.
pub fn mtu_or_default(mtu: Option<u16>) -> (value: u16)
    ensures
        value == match mtu {
            Some(mtu) => mtu,
            None => DEFAULT_MTU,
        },
{
    match mtu {
        Some(mtu) => mtu,
        None => DEFAULT_MTU,
    }
}

/// Command sent from the library to the proxy over the control channel.
#[derive(Clone, Copy, Debug, PartialEq, Eq, Structural)]
pub enum ProxyCommand {
    /// Add a route to the TAP interface.
    AddRoute { id: u64, destination: IpAddr, prefix_len: u8 },
    /// Remove a route from the TAP interface.
    RemoveRoute { id: u64, destination: IpAddr, prefix_len: u8 },
    /// Read the statistics of the interfaces in the namespace.
    GetIfaceStats { id: u64 },
}

impl ProxyCommand {
    pub open spec fn spec_id(&self) -> u64 {
        match self {
            ProxyCommand::AddRoute { id, .. } => *id,
            ProxyCommand::RemoveRoute { id, .. } => *id,
            ProxyCommand::GetIfaceStats { id } => *id,
        }
    }

    /// The id by which the response is matched.
    #[verifier::when_used_as_spec(spec_id)]
    pub fn id(&self) -> (id: u64)
        ensures
            id == self.spec_id(),
    {
        match self {
            ProxyCommand::AddRoute { id, .. } => *id,
            ProxyCommand::RemoveRoute { id, .. } => *id,
            ProxyCommand::GetIfaceStats { id } => *id,
        }
    }

    pub open spec fn spec_with_id(self, id: u64) -> ProxyCommand {
        match self {
            ProxyCommand::AddRoute { id: _, destination, prefix_len } => ProxyCommand::AddRoute {
                id,
                destination,
                prefix_len,
            },
            ProxyCommand::RemoveRoute {
                id: _,
                destination,
                prefix_len,
            } => ProxyCommand::RemoveRoute { id, destination, prefix_len },
            ProxyCommand::GetIfaceStats { id: _ } => ProxyCommand::GetIfaceStats { id },
        }
    }

    /// The same command under another id.
    #[verifier::when_used_as_spec(spec_with_id)]
    pub fn with_id(self, id: u64) -> (command: ProxyCommand)
        ensures
            command == self.spec_with_id(id),
    {
        match self {
            ProxyCommand::AddRoute { id: _, destination, prefix_len } => ProxyCommand::AddRoute {
                id,
                destination,
                prefix_len,
            },
            ProxyCommand::RemoveRoute {
                id: _,
                destination,
                prefix_len,
            } => ProxyCommand::RemoveRoute { id, destination, prefix_len },
            ProxyCommand::GetIfaceStats { id: _ } => ProxyCommand::GetIfaceStats { id },
        }
    }
}

/// Response from the proxy to a command.
#[derive(Clone, Debug)]
pub struct ProxyResponse {
    /// Request ID matching the command.
    pub id: u64,
    /// Error message, if the command failed.
    pub error: Option<String>,
}

impl ProxyResponse {
    /// The command succeeded.
    pub fn ok(id: u64) -> (response: ProxyResponse)
        ensures
            response.id == id,
            response.error is None,
    {
        ProxyResponse { id, error: None }
    }

    /// The command failed.
    pub fn error(id: u64, message: String) -> (response: ProxyResponse)
        ensures
            response.id == id,
            response.error == Some(message),
    {
        ProxyResponse { id, error: Some(message) }
    }
}

/// Decoded message from the wire.
#[derive(Debug)]
pub enum Message {
    /// Control message with JSON payload.
    Control(Vec<u8>),
    /// Ethernet frame.
    Frame(Vec<u8>),
}

/// A message of one of the two kinds, as bytes.
pub open spec fn encoded(kind: u8, payload: Seq<u8>) -> Seq<u8> {
    seq![kind] + payload
}

/// What `data` decodes to.
pub open spec fn decodes(data: Seq<u8>, message: Message) -> bool {
    match message {
        Message::Control(payload) => data == encoded(MSG_TYPE_CONTROL, payload@),
        Message::Frame(frame) => data == encoded(MSG_TYPE_FRAME, frame@),
    }
}

fn encode(kind: u8, payload: &[u8]) -> (message: Vec<u8>)
    ensures
        message@ == encoded(kind, payload@),
{
    let mut message: Vec<u8> = Vec::new();
    message.push(kind);
    bytes::append(&mut message, payload);
    assert(message@ =~= encoded(kind, payload@));
    message
}

/// Encode a control message, given as JSON, for transmission.
pub fn encode_control(json: &[u8]) -> (message: Vec<u8>)
    ensures
        message@ == encoded(MSG_TYPE_CONTROL, json@),
{
    encode(MSG_TYPE_CONTROL, json)
}

/// Encode an Ethernet frame for transmission.
pub fn encode_frame(frame: &[u8]) -> (message: Vec<u8>)
    ensures
        message@ == encoded(MSG_TYPE_FRAME, frame@),
{
    encode(MSG_TYPE_FRAME, frame)
}

/// The text of the error for a message of an unknown kind.
pub open spec fn unknown_type_text(kind: u8) -> Seq<char> {
    "unknown message type: 0x"@ + text::hex(kind)
}

/// Why a message cannot be decoded.
pub open spec fn fault_text(data: Seq<u8>) -> Seq<char> {
    if data.len() == 0 {
        "empty message"@
    } else {
        unknown_type_text(data[0])
    }
}

/// Decode a message from the wire.
pub fn decode_message(data: &[u8]) -> (result: Result<Message, Error>)
    ensures
        match result {
            Ok(message) => decodes(data@, message),
            Err(error) => {
                &&& data@.len() == 0 || data@[0] != MSG_TYPE_CONTROL && data@[0] != MSG_TYPE_FRAME
                &&& error.reads(ErrorKind::InvalidData, fault_text(data@))
            },
        },
{
    if data.len() == 0 {
        return Err(invalid_data("empty message"));
    }
    let kind: u8 = data[0];
    let payload = bytes::copy_range(data, 1, data.len());
    assert(data@ =~= encoded(kind, payload@));
    if kind == MSG_TYPE_CONTROL {
        Ok(Message::Control(payload))
    } else if kind == MSG_TYPE_FRAME {
        Ok(Message::Frame(payload))
    } else {
        let message = text::join("unknown message type: 0x", text::to_hex(kind).as_str());
        Err(invalid_data(message.as_str()))
    }
}

/// Why a message is no control message: nothing, of no known kind, or a frame.
pub open spec fn not_control_text(data: Seq<u8>, got_frame: Seq<char>) -> Seq<char> {
    if data.len() > 0 && data[0] == MSG_TYPE_FRAME {
        got_frame
    } else {
        fault_text(data)
    }
}

/// The JSON of a message that has to be a control message. A frame is answered
/// with `got_frame`.
pub(crate) fn control_payload(data: &[u8], got_frame: &str) -> (result: Result<Vec<u8>, Error>)
    ensures
        match result {
            Ok(payload) => data@ == encoded(MSG_TYPE_CONTROL, payload@),
            Err(error) => {
                &&& data@.len() == 0 || data@[0] != MSG_TYPE_CONTROL
                &&& error.reads(ErrorKind::InvalidData, not_control_text(data@, got_frame@))
            },
        },
{
    match decode_message(data) {
        Ok(Message::Control(payload)) => Ok(payload),
        Ok(Message::Frame(frame)) => {
            assert(encoded(MSG_TYPE_FRAME, frame@)[0] == MSG_TYPE_FRAME);
            Err(invalid_data(got_frame))
        },
        Err(error) => Err(error),
    }
}

/// A message decodes to what it was encoded from, and to nothing else.
pub proof fn encoded_message_decodes(payload: Seq<u8>, message: Message)
    ensures
        decodes(encoded(MSG_TYPE_CONTROL, payload), message) <==> (message matches Message::Control(
            p,
        ) && p@ == payload),
        decodes(encoded(MSG_TYPE_FRAME, payload), message) <==> (message matches Message::Frame(f)
            && f@ == payload),
{
    assert forall|a: u8, b: u8, p: Seq<u8>, q: Seq<u8>| #[trigger]
        encoded(a, p) == #[trigger] encoded(b, q) implies a == b && p == q by {
        assert(encoded(a, p)[0] == a && encoded(b, q)[0] == b);
        assert(encoded(a, p).skip(1) =~= p);
        assert(encoded(b, q).skip(1) =~= q);
    }
}

/// A message after its length, as it goes over a stream.
pub open spec fn framed(message: Seq<u8>) -> Seq<u8> {
    bytes::le_bytes(message.len(), 4) + message
}

/// The text of the error for a message over the limit.
pub open spec fn too_large_text(what: Seq<char>, len: nat) -> Seq<char> {
    what + text::decimal(len) + " bytes (max "@ + text::decimal(MAX_MESSAGE_SIZE as nat) + ")"@
}

fn too_large(what: &str, len: u64) -> (message: String)
    ensures
        message@ == too_large_text(what@, len as nat),
{
    let mut message = what.to_owned();
    message.append(text::to_decimal(len).as_str());
    message.append(" bytes (max ");
    message.append(text::to_decimal(MAX_MESSAGE_SIZE as u64).as_str());
    message.append(")");
    message
}

/// The length of a message as four bytes.
pub fn length_prefix(len: u32) -> (prefix: Vec<u8>)
    ensures
        prefix@ == bytes::le_bytes(len as nat, 4),
        prefix.len() == 4,
{
    bytes::to_le_bytes(len as u128, 4)
}

/// The length that four bytes tell.
pub fn prefixed_length(prefix: &[u8]) -> (len: u32)
    requires
        prefix@.len() == 4,
    ensures
        len == bytes::le_value(prefix@),
{
    proof {
        bytes::le_value_written_back(prefix@);
        bytes::lemma_byte_range_values();
    }
    bytes::from_le_bytes(prefix) as u32
}

/// Write a length-prefixed message.
///
/// Wire format: `[4-byte LE length][payload]`
pub fn write_framed(writer: &mut Vec<u8>, msg: &[u8]) -> (result: Result<(), Error>)
    ensures
        match result {
            Ok(()) => msg@.len() <= MAX_MESSAGE_SIZE && final(writer)@ == old(writer)@ + framed(
                msg@,
            ),
            Err(error) => {
                &&& msg@.len() > MAX_MESSAGE_SIZE
                &&& final(writer)@ == old(writer)@
                &&& error.reads(
                    ErrorKind::InvalidInput,
                    too_large_text("message too large: "@, msg@.len()),
                )
            },
        },
{
    let len: usize = msg.len();
    if len > MAX_MESSAGE_SIZE {
        return Err(invalid_input(too_large("message too large: ", len as u64).as_str()));
    }
    let ghost before = writer@;
    bytes::append(writer, length_prefix(len as u32).as_slice());
    bytes::append(writer, msg);
    assert(writer@ =~= before + framed(msg@));
    Ok(())
}

/// The length of the message that follows a prefix, if it is within the limit.
pub fn framed_length(prefix: &[u8]) -> (result: Result<usize, Error>)
    requires
        prefix@.len() == 4,
    ensures
        match result {
            Ok(len) => len == bytes::le_value(prefix@) && len <= MAX_MESSAGE_SIZE,
            Err(error) => bytes::le_value(prefix@) > MAX_MESSAGE_SIZE && error.reads(
                ErrorKind::InvalidData,
                too_large_text("framed message too large: "@, bytes::le_value(prefix@)),
            ),
        },
{
    let len: u32 = prefixed_length(prefix);
    if len > MAX_MESSAGE_SIZE as u32 {
        return Err(invalid_data(too_large("framed message too large: ", len as u64).as_str()));
    }
    Ok(len as usize)
}

/// Bytes that are read from front to back.
pub struct Cursor<'a> {
    pub data: &'a [u8],
    pub position: usize,
}

impl<'a> Cursor<'a> {
    /// The bytes that are still to be read.
    pub open spec fn rest(&self) -> Seq<u8> {
        self.data@.skip(self.position as int)
    }

    pub open spec fn wf(&self) -> bool {
        self.position <= self.data@.len()
    }

    pub fn new(data: &'a [u8]) -> (cursor: Cursor<'a>)
        ensures
            cursor.wf(),
            cursor.rest() == data@,
    {
        let cursor = Cursor { data, position: 0 };
        assert(cursor.rest() =~= data@);
        cursor
    }

    /// Read exactly `len` bytes. Where there are fewer, nothing is left.
    pub fn read_exact(&mut self, len: usize) -> (result: Result<Vec<u8>, Error>)
        requires
            old(self).wf(),
        ensures
            final(self).wf(),
            match result {
                Ok(data) => len <= old(self).rest().len() && data@ == old(self).rest().take(
                    len as int,
                ) && final(self).rest() == old(self).rest().skip(len as int),
                Err(error) => len > old(self).rest().len() && final(self).rest().len() == 0
                    && error.reads(ErrorKind::UnexpectedEof, "failed to fill whole buffer"@),
            },
    {
        if len > self.data.len() - self.position {
            self.position = self.data.len();
            return Err(unexpected_eof("failed to fill whole buffer"));
        }
        let data = bytes::copy_range(self.data, self.position, self.position + len);
        let ghost before = self.rest();
        self.position = self.position + len;
        assert(data@ =~= before.take(len as int));
        assert(self.rest() =~= before.skip(len as int));
        Ok(data)
    }
}

/// What reading a framed message from `data` is answered with, if it fails.
pub open spec fn read_failure(data: Seq<u8>) -> Option<ErrorKind> {
    if data.len() < LENGTH_PREFIX_SIZE {
        Some(ErrorKind::UnexpectedEof)
    } else {
        let len = bytes::le_value(data.take(4));
        if len > MAX_MESSAGE_SIZE {
            Some(ErrorKind::InvalidData)
        } else if data.len() < LENGTH_PREFIX_SIZE + len {
            Some(ErrorKind::UnexpectedEof)
        } else {
            None
        }
    }
}

/// How that failure reads.
pub open spec fn read_failure_text(data: Seq<u8>) -> Seq<char> {
    if read_failure(data) == Some(ErrorKind::InvalidData) {
        too_large_text("framed message too large: "@, bytes::le_value(data.take(4)))
    } else {
        "failed to fill whole buffer"@
    }
}

/// Read a length-prefixed message.
///
/// Returns the payload bytes. Returns `UnexpectedEof` if the data ends early.
pub fn read_framed(reader: &mut Cursor<'_>) -> (result: Result<Vec<u8>, Error>)
    requires
        old(reader).wf(),
    ensures
        final(reader).wf(),
        match result {
            Ok(msg) => {
                &&& read_failure(old(reader).rest()) is None
                &&& msg@.len() <= MAX_MESSAGE_SIZE
                &&& old(reader).rest() == framed(msg@) + final(reader).rest()
            },
            Err(error) => {
                let all = old(reader).rest();
                &&& read_failure(all) == Some(error.kind)
                &&& error.message@ == read_failure_text(all)
                &&& final(reader).rest() == if error.kind == ErrorKind::InvalidData {
                    all.skip(4)
                } else {
                    Seq::empty()
                }
            },
        },
{
    let ghost all = reader.rest();
    let prefix = reader.read_exact(LENGTH_PREFIX_SIZE)?;
    let len: usize = framed_length(&prefix)?;
    let msg = reader.read_exact(len)?;
    proof {
        bytes::le_value_written_back(prefix@);
        assert(all =~= framed(msg@) + reader.rest());
    }
    Ok(msg)
}

/// Reading gives back the message that was written, and stops where it ends.
pub proof fn framed_message_reads_back(msg: Seq<u8>, rest: Seq<u8>, read: Seq<u8>, left: Seq<u8>)
    requires
        msg.len() <= MAX_MESSAGE_SIZE,
        framed(msg) + rest == framed(read) + left,
        read.len() <= MAX_MESSAGE_SIZE,
    ensures
        read_failure(framed(msg) + rest) is None,
        read == msg,
        left == rest,
{
    let data = framed(msg) + rest;
    bytes::lemma_byte_range_values();
    bytes::le_bytes_read_back(msg.len(), 4);
    bytes::le_bytes_read_back(read.len(), 4);
    assert(data.take(4) =~= bytes::le_bytes(msg.len(), 4));
    assert((framed(read) + left).take(4) =~= bytes::le_bytes(read.len(), 4));
    assert(data.subrange(4, 4int + msg.len()) =~= msg);
    assert((framed(read) + left).subrange(4, 4int + read.len()) =~= read);
    assert(data.skip(4int + msg.len()) =~= rest);
    assert((framed(read) + left).skip(4int + read.len()) =~= left);
}

/// Messages one after the other on a stream.
pub open spec fn stream_of(messages: Seq<Seq<u8>>) -> Seq<u8>
    decreases messages.len(),
{
    if messages.len() == 0 {
        Seq::empty()
    } else {
        framed(messages[0]) + stream_of(messages.skip(1))
    }
}

/// Read after read gives back the messages that were written, in order and with
/// their boundaries, and then stands at what follows them. Before read `i` the
/// reader has `left[i]` before it, and the read gives `read[i]`.
pub proof fn messages_read_back(
    messages: Seq<Seq<u8>>,
    rest: Seq<u8>,
    read: Seq<Seq<u8>>,
    left: Seq<Seq<u8>>,
)
    requires
        forall|i: int|
            0 <= i < messages.len() ==> (#[trigger] messages[i]).len() <= MAX_MESSAGE_SIZE,
        read.len() == messages.len(),
        left.len() == messages.len() + 1,
        left[0] == stream_of(messages) + rest,
        forall|i: int|
            0 <= i < read.len() ==> (#[trigger] read[i]).len() <= MAX_MESSAGE_SIZE && left[i]
                == framed(read[i]) + left[i + 1],
    ensures
        read == messages,
        left.last() == rest,
    decreases messages.len(),
{
    if messages.len() == 0 {
        assert(left[0] =~= rest);
    } else {
        let tail = stream_of(messages.skip(1)) + rest;
        assert(left[0] =~= framed(messages[0]) + tail);
        assert(read[0].len() <= MAX_MESSAGE_SIZE);
        framed_message_reads_back(messages[0], tail, read[0], left[1]);
        assert forall|i: int| 0 <= i < messages.len() - 1 implies (
        #[trigger] messages.skip(1)[i]).len() <= MAX_MESSAGE_SIZE by {
            assert(messages.skip(1)[i] == messages[i + 1]);
        }
        assert forall|i: int| 0 <= i < read.len() - 1 implies (#[trigger] read.skip(1)[i]).len()
            <= MAX_MESSAGE_SIZE && left.skip(1)[i] == framed(read.skip(1)[i]) + left.skip(1)[i
            + 1] by {
            assert(read.skip(1)[i] == read[i + 1]);
        }
        messages_read_back(messages.skip(1), rest, read.skip(1), left.skip(1));
        assert forall|i: int| 0 <= i < read.len() implies read[i] == messages[i] by {
            if i > 0 {
                assert(read.skip(1)[i - 1] == messages.skip(1)[i - 1]);
            }
        }
        assert(read =~= messages);
    }
}

/// The address that follows `ip`.
pub open spec fn next_ip(ip: IpAddr) -> IpAddr {
    match ip {
        IpAddr::V4(v4) => IpAddr::V4(Ipv4Addr { bits: (v4.bits + 1) as u32 }),
        IpAddr::V6(v6) => IpAddr::V6(
            Ipv6Addr {
                bits: if v6.bits == u128::MAX {
                    0
                } else {
                    (v6.bits + 1) as u128
                },
            },
        ),
    }
}

/// Compute the default client IP from the TAP IP (tap_ip + 1).
///
/// There is no IPv4 address after 255.255.255.255.
pub fn default_client_ip(tap_ip: IpAddr) -> (ip: IpAddr)
    requires
        tap_ip matches IpAddr::V4(v4) ==> v4.bits < u32::MAX,
    ensures
        ip == next_ip(tap_ip),
{
    match tap_ip {
        IpAddr::V4(v4) => IpAddr::V4(Ipv4Addr { bits: v4.bits + 1 }),
        IpAddr::V6(v6) => IpAddr::V6(Ipv6Addr { bits: v6.bits.wrapping_add(1) }),
    }
}

/// The two addresses agree in their first `prefix_len` bits, and are of one
/// family.
pub open spec fn same_subnet(ip: IpAddr, tap_ip: IpAddr, prefix_len: u8) -> bool {
    match (ip, tap_ip) {
        (IpAddr::V4(ip), IpAddr::V4(tap)) => prefix_len >= 32 && ip == tap || prefix_len < 32
            && ip.bits as nat / vstd::arithmetic::power2::pow2((32 - prefix_len) as nat)
            == tap.bits as nat / vstd::arithmetic::power2::pow2((32 - prefix_len) as nat),
        (IpAddr::V6(ip), IpAddr::V6(tap)) => prefix_len >= 128 && ip == tap || prefix_len < 128
            && ip.bits as nat / vstd::arithmetic::power2::pow2((128 - prefix_len) as nat)
            == tap.bits as nat / vstd::arithmetic::power2::pow2((128 - prefix_len) as nat),
        _ => false,
    }
}

/// Validate that an IP is in the same subnet as the TAP IP. Without a prefix,
/// the subnet is the whole address family.
pub fn validate_ip_in_subnet(ip: IpAddr, tap_ip: IpAddr, prefix_len: u8) -> (valid: bool)
    ensures
        valid == same_subnet(ip, tap_ip, prefix_len),
{
    match (ip, tap_ip) {
        (IpAddr::V4(ip), IpAddr::V4(tap)) => {
            if prefix_len >= 32 {
                ip.bits == tap.bits
            } else if prefix_len == 0 {
                proof {
                    lemma_whole_family();
                }
                true
            } else {
                let shift: u32 = 32 - prefix_len as u32;
                proof {
                    vstd::bits::lemma_u32_shr_is_div(ip.bits, shift);
                    vstd::bits::lemma_u32_shr_is_div(tap.bits, shift);
                }
                (ip.bits >> shift) == (tap.bits >> shift)
            }
        },
        (IpAddr::V6(ip), IpAddr::V6(tap)) => {
            if prefix_len >= 128 {
                ip.bits == tap.bits
            } else if prefix_len == 0 {
                proof {
                    lemma_whole_family();
                }
                true
            } else {
                let shift: u128 = 128 - prefix_len as u128;
                proof {
                    vstd::bits::lemma_u128_shr_is_div(ip.bits, shift);
                    vstd::bits::lemma_u128_shr_is_div(tap.bits, shift);
                }
                (ip.bits >> shift) == (tap.bits >> shift)
            }
        },
        _ => false,
    }
}

/// No address reaches the size of its family.
proof fn lemma_whole_family()
    ensures
        vstd::arithmetic::power2::pow2(32) == 0x1_0000_0000,
        vstd::arithmetic::power2::pow2(128) == u128::MAX + 1,
        forall|bits: u32| #[trigger] (bits as nat / vstd::arithmetic::power2::pow2(32)) == 0,
        forall|bits: u128| #[trigger] (bits as nat / vstd::arithmetic::power2::pow2(128)) == 0,
{
    lemma_all_ones(128, 0);
    assert forall|bits: u32| #[trigger]
        (bits as nat / vstd::arithmetic::power2::pow2(32)) == 0 by {
        vstd::arithmetic::div_mod::lemma_basic_div(
            bits as int,
            vstd::arithmetic::power2::pow2(32) as int,
        );
    }
    assert forall|bits: u128| #[trigger]
        (bits as nat / vstd::arithmetic::power2::pow2(128)) == 0 by {
        vstd::arithmetic::div_mod::lemma_basic_div(
            bits as int,
            vstd::arithmetic::power2::pow2(128) as int,
        );
    }
}

/// The last address of its subnet: all bits behind the prefix are set.
pub open spec fn last_in_subnet(ip: IpAddr, prefix_len: u8) -> bool {
    match ip {
        IpAddr::V4(v4) => prefix_len >= 32 || {
            let size = vstd::arithmetic::power2::pow2((32 - prefix_len) as nat);
            v4.bits as nat % size == size - 1
        },
        IpAddr::V6(v6) => prefix_len >= 128 || {
            let size = vstd::arithmetic::power2::pow2((128 - prefix_len) as nat);
            v6.bits as nat % size == size - 1
        },
    }
}

proof fn lemma_next_in_block(value: nat, size: nat)
    requires
        size > 0,
        value % size != size - 1,
    ensures
        (value + 1) / size == value / size,
{
    assert((value + 1) / size == value / size) by (nonlinear_arith)
        requires
            size > 0,
            value % size != size - 1,
    ;
}

/// The default address of a client is in the subnet of the TAP interface, unless
/// the interface has the last address there.
pub proof fn default_client_is_in_the_subnet(tap_ip: IpAddr, prefix_len: u8)
    requires
        !last_in_subnet(tap_ip, prefix_len),
    ensures
        same_subnet(next_ip(tap_ip), tap_ip, prefix_len),
{
    match tap_ip {
        IpAddr::V4(v4) => {
            let shift = (32 - prefix_len) as nat;
            let size = vstd::arithmetic::power2::pow2(shift);
            vstd::arithmetic::power2::lemma_pow2_pos(shift);
            lemma_next_in_block(v4.bits as nat, size);
            if v4.bits == u32::MAX {
                lemma_all_ones(32, shift);
            }
        },
        IpAddr::V6(v6) => {
            let shift = (128 - prefix_len) as nat;
            let size = vstd::arithmetic::power2::pow2(shift);
            vstd::arithmetic::power2::lemma_pow2_pos(shift);
            lemma_next_in_block(v6.bits as nat, size);
            if v6.bits == u128::MAX {
                lemma_all_ones(128, shift);
            }
        },
    }
}

/// A number with all bits set has them set in its lower part too.
proof fn lemma_all_ones(bits: nat, shift: nat)
    requires
        shift <= bits,
    ensures
        (vstd::arithmetic::power2::pow2(bits) - 1) % vstd::arithmetic::power2::pow2(shift) as int
            == vstd::arithmetic::power2::pow2(shift) - 1,
        vstd::arithmetic::power2::pow2(32) == 0x1_0000_0000,
        vstd::arithmetic::power2::pow2(128) == u128::MAX + 1,
{
    let size = vstd::arithmetic::power2::pow2(shift) as int;
    let blocks = vstd::arithmetic::power2::pow2((bits - shift) as nat) as int;
    vstd::arithmetic::power2::lemma_pow2_pos(shift);
    vstd::arithmetic::power2::lemma_pow2_adds(shift, (bits - shift) as nat);
    vstd::arithmetic::power2::lemma2_to64();
    vstd::arithmetic::power2::lemma_pow2_adds(64, 64);
    assert(size * blocks - 1 == size * (blocks - 1) + (size - 1)) by (nonlinear_arith);
    vstd::arithmetic::div_mod::lemma_fundamental_div_mod_converse(
        size * blocks - 1,
        size,
        blocks - 1,
        size - 1,
    );
}

/// The default address of a client is the one right after the TAP interface's,
/// and never that address itself. After the last IPv6 address comes the first.
pub proof fn default_client_ip_is_one_more(tap_ip: IpAddr, ip: IpAddr)
    requires
        tap_ip matches IpAddr::V4(v4) ==> v4.bits < u32::MAX,
        call_ensures(default_client_ip, (tap_ip,), ip),
    ensures
        ip != tap_ip,
        tap_ip matches IpAddr::V4(tap) ==> (ip matches IpAddr::V4(v4) && v4.bits == tap.bits + 1),
        tap_ip matches IpAddr::V6(tap) ==> (ip matches IpAddr::V6(v6) && (tap.bits < u128::MAX
            ==> v6.bits == tap.bits + 1) && (tap.bits == u128::MAX ==> v6.bits == 0)),
{
}

/// No two TAP interfaces give their clients the same default address.
pub proof fn default_client_ips_differ(a: IpAddr, b: IpAddr, ip: IpAddr)
    requires
        a matches IpAddr::V4(v4) ==> v4.bits < u32::MAX,
        b matches IpAddr::V4(v4) ==> v4.bits < u32::MAX,
        call_ensures(default_client_ip, (a,), ip),
        call_ensures(default_client_ip, (b,), ip),
    ensures
        a == b,
{
}

/// An address lies in the subnet just when it is of the same family and has the
/// same number of whole blocks of the subnet's size below it. A prefix as long as
/// the address, or longer, leaves room for one address only.
pub proof fn subnet_is_a_block(ip: IpAddr, tap_ip: IpAddr, prefix_len: u8, valid: bool)
    requires
        call_ensures(validate_ip_in_subnet, (ip, tap_ip, prefix_len), valid),
    ensures
        valid ==> (ip is V4 <==> tap_ip is V4),
        prefix_len == 0 ==> (valid <==> (ip is V4 <==> tap_ip is V4)),
        ip is V4 && tap_ip is V4 && prefix_len >= 32 ==> (valid <==> ip == tap_ip),
        ip is V6 && tap_ip is V6 && prefix_len >= 128 ==> (valid <==> ip == tap_ip),
        ip is V4 && tap_ip is V4 && prefix_len < 32 ==> (valid <==> ip->V4_0.bits as nat
            / vstd::arithmetic::power2::pow2((32 - prefix_len) as nat) == tap_ip->V4_0.bits as nat
            / vstd::arithmetic::power2::pow2((32 - prefix_len) as nat)),
        ip is V6 && tap_ip is V6 && prefix_len < 128 ==> (valid <==> ip->V6_0.bits as nat
            / vstd::arithmetic::power2::pow2((128 - prefix_len) as nat) == tap_ip->V6_0.bits as nat
            / vstd::arithmetic::power2::pow2((128 - prefix_len) as nat)),
{
    lemma_whole_family();
    match (ip, tap_ip) {
        (IpAddr::V4(a), IpAddr::V4(b)) => {
            assert(a.bits as nat / vstd::arithmetic::power2::pow2(32) == 0);
            assert(b.bits as nat / vstd::arithmetic::power2::pow2(32) == 0);
        },
        (IpAddr::V6(a), IpAddr::V6(b)) => {
            assert(a.bits as nat / vstd::arithmetic::power2::pow2(128) == 0);
            assert(b.bits as nat / vstd::arithmetic::power2::pow2(128) == 0);
        },
        _ => {},
    }
}

/// Every address is in its own subnet, and whether two are in one subnet does not
/// depend on which is asked about.
pub proof fn subnets_are_shared(a: IpAddr, b: IpAddr, prefix_len: u8, own: bool, ab: bool, ba: bool)
    requires
        call_ensures(validate_ip_in_subnet, (a, a, prefix_len), own),
        call_ensures(validate_ip_in_subnet, (a, b, prefix_len), ab),
        call_ensures(validate_ip_in_subnet, (b, a, prefix_len), ba),
    ensures
        own,
        ab == ba,
{
}

/// A control message is a zero and its payload, a frame a one and its bytes.
pub proof fn messages_carry_their_kind(
    payload: &[u8],
    control: Vec<u8>,
    frame: Vec<u8>,
)
    requires
        call_ensures(encode_control, (payload,), control),
        call_ensures(encode_frame, (payload,), frame),
    ensures
        control@.len() == payload@.len() + 1,
        control@[0] == 0,
        control@.skip(1) == payload@,
        frame@.len() == payload@.len() + 1,
        frame@[0] == 1,
        frame@.skip(1) == payload@,
{
    assert(control@.skip(1) =~= payload@);
    assert(frame@.skip(1) =~= payload@);
}

/// Decoding goes by the first byte and leaves the others as they are; there are
/// no messages of other kinds, and no empty ones.
pub proof fn decoding_goes_by_the_first_byte(data: &[u8], result: Result<Message, Error>)
    requires
        call_ensures(decode_message, (data,), result),
    ensures
        result is Ok <==> data@.len() > 0 && (data@[0] == 0 || data@[0] == 1),
        data@.len() > 0 && data@[0] == 0 ==> (result matches Ok(Message::Control(payload))
            && payload@ == data@.skip(1)),
        data@.len() > 0 && data@[0] == 1 ==> (result matches Ok(Message::Frame(frame)) && frame@
            == data@.skip(1)),
        result matches Err(error) ==> error.kind == ErrorKind::InvalidData,
        data@.len() == 0 ==> (result matches Err(error) && error.message@ == "empty message"@),
        data@.len() > 0 && data@[0] > 1 ==> (result matches Err(error) && error.message@
            == "unknown message type: 0x"@ + text::hex(data@[0])),
{
    match result {
        Ok(Message::Control(payload)) => {
            assert(data@.skip(1) =~= payload@);
        },
        Ok(Message::Frame(frame)) => {
            assert(data@.skip(1) =~= frame@);
        },
        Err(_) => {},
    }
}

/// The length of a message is written with its lowest byte first, and is read so.
pub proof fn lengths_have_their_lowest_byte_first(
    len: u32,
    prefix: Vec<u8>,
    bytes: &[u8],
    read: u32,
)
    requires
        call_ensures(length_prefix, (len,), prefix),
        bytes@.len() == 4,
        call_ensures(prefixed_length, (bytes,), read),
    ensures
        prefix@.len() == 4,
        prefix@[0] + 0x100 * prefix@[1] + 0x1_0000 * prefix@[2] + 0x100_0000 * prefix@[3] == len,
        read == bytes@[0] + 0x100 * bytes@[1] + 0x1_0000 * bytes@[2] + 0x100_0000 * bytes@[3],
        bytes@ == prefix@ ==> read == len,
{
    bytes::lemma_byte_range_values();
    bytes::le_bytes_read_back(len as nat, 4);
    bytes::four_bytes_spell(prefix@);
    bytes::four_bytes_spell(bytes@);
}

/// A message is written behind its length where it has at most 16 MB. Otherwise
/// nothing is written.
pub proof fn framed_messages_follow_their_length(
    writer: &mut Vec<u8>,
    msg: &[u8],
    result: Result<(), Error>,
)
    requires
        call_ensures(write_framed, (writer, msg), result),
    ensures
        result is Ok <==> msg@.len() <= 16_777_216,
        result matches Err(error) ==> error.kind == ErrorKind::InvalidInput && final(writer)@
            == old(writer)@,
        result is Ok ==> {
            let at = old(writer)@.len() as int;
            let out = final(writer)@;
            &&& out.len() == at + 4 + msg@.len()
            &&& out.take(at) == old(writer)@
            &&& out[at] + 0x100 * out[at + 1] + 0x1_0000 * out[at + 2] + 0x100_0000 * out[at + 3]
                == msg@.len()
            &&& out.skip(at + 4) == msg@
        },
{
    if result is Ok {
        let at = old(writer)@.len() as int;
        let out = final(writer)@;
        bytes::lemma_byte_range_values();
        bytes::le_bytes_read_back(msg@.len(), 4);
        let prefix = bytes::le_bytes(msg@.len(), 4);
        bytes::four_bytes_spell(prefix);
        assert(out.take(at) =~= old(writer)@);
        assert(out.skip(at + 4) =~= msg@);
        assert(out[at] == prefix[0] && out[at + 1] == prefix[1] && out[at + 2] == prefix[2]
            && out[at + 3] == prefix[3]);
    }
}

/// The length in front of a message is what its four bytes tell, lowest first,
/// up to 16 MB.
pub proof fn framed_lengths_are_limited(prefix: &[u8], result: Result<usize, Error>)
    requires
        prefix@.len() == 4,
        call_ensures(framed_length, (prefix,), result),
    ensures
        ({
            let len = prefix@[0] + 0x100 * prefix@[1] + 0x1_0000 * prefix@[2] + 0x100_0000
                * prefix@[3];
            &&& result is Ok <==> len <= 16_777_216
            &&& result matches Ok(told) ==> told == len
            &&& result matches Err(error) ==> error.kind == ErrorKind::InvalidData
        }),
{
    bytes::four_bytes_spell(prefix@);
}

/// Reading takes the length and then as many bytes, and nothing behind them. It
/// fails where there are fewer, or where the length is over the limit.
pub proof fn framed_messages_are_read_whole(
    reader: &mut Cursor<'_>,
    result: Result<Vec<u8>, Error>,
)
    requires
        old(reader).wf(),
        call_ensures(read_framed, (reader,), result),
    ensures
        ({
            let all = old(reader).data@.skip(old(reader).position as int);
            let left = final(reader).data@.skip(final(reader).position as int);
            let len = all[0] + 0x100 * all[1] + 0x1_0000 * all[2] + 0x100_0000 * all[3];
            &&& result is Ok <==> all.len() >= 4 && len <= 16_777_216 && all.len() >= 4 + len
            &&& result matches Ok(msg) ==> {
                &&& msg@.len() == len
                &&& msg@ == all.subrange(4, 4 + len)
                &&& left == all.skip(4 + len)
            }
            &&& result matches Err(error) ==> error.kind == if all.len() >= 4 && len > 16_777_216 {
                ErrorKind::InvalidData
            } else {
                ErrorKind::UnexpectedEof
            }
        }),
{
    let all = old(reader).rest();
    if all.len() >= 4 {
        let head = all.take(4);
        bytes::four_bytes_spell(head);
        assert(head[0] == all[0] && head[1] == all[1] && head[2] == all[2] && head[3] == all[3]);
        match result {
            Ok(msg) => {
                let left = final(reader).rest();
                bytes::lemma_byte_range_values();
                bytes::le_bytes_read_back(msg@.len(), 4);
                assert(head =~= bytes::le_bytes(msg@.len(), 4));
                assert(all.subrange(4, 4int + msg@.len()) =~= msg@);
                assert(all.skip(4int + msg@.len()) =~= left);
            },
            Err(_) => {},
        }
    }
}

/// Reading from bytes takes the next ones, or tells that there are too few.
pub proof fn reads_take_the_next_bytes(
    cursor: &mut Cursor<'_>,
    len: usize,
    result: Result<Vec<u8>, Error>,
)
    requires
        old(cursor).wf(),
        call_ensures(Cursor::read_exact, (cursor, len), result),
    ensures
        ({
            let all = old(cursor).data@.skip(old(cursor).position as int);
            let left = final(cursor).data@.skip(final(cursor).position as int);
            &&& result is Ok <==> len <= all.len()
            &&& result matches Ok(data) ==> data@ == all.take(len as int) && left == all.skip(
                len as int,
            )
            &&& result matches Err(error) ==> error.kind == ErrorKind::UnexpectedEof && left.len()
                == 0
        }),
{
}

/// Another id changes the id of a command and nothing else.
pub proof fn commands_keep_all_but_their_id(
    command: ProxyCommand,
    id: u64,
    numbered: ProxyCommand,
    told: u64,
)
    requires
        call_ensures(ProxyCommand::with_id, (command, id), numbered),
        call_ensures(ProxyCommand::id, (&numbered,), told),
    ensures
        told == id,
        command matches ProxyCommand::AddRoute { id: _, destination, prefix_len } ==> numbered == (
        ProxyCommand::AddRoute { id, destination, prefix_len }),
        command matches ProxyCommand::RemoveRoute { id: _, destination, prefix_len } ==> numbered
            == (ProxyCommand::RemoveRoute { id, destination, prefix_len }),
        command is GetIfaceStats ==> numbered == (ProxyCommand::GetIfaceStats { id }),
{
}

/// A response has the id it was made for, and an error just where it was made
/// with one.
pub proof fn responses_tell_how_it_went(
    id: u64,
    message: String,
    ok: ProxyResponse,
    failed: ProxyResponse,
)
    requires
        call_ensures(ProxyResponse::ok, (id,), ok),
        call_ensures(ProxyResponse::error, (id, message), failed),
    ensures
        ok.id == id,
        ok.error is None,
        failed.id == id,
        failed.error == Some(message),
{
}

/// A proxy that tells no MTU has one of 1500 bytes.
pub proof fn mtu_is_what_the_proxy_tells(mtu: Option<u16>, value: u16)
    requires
        call_ensures(mtu_or_default, (mtu,), value),
    ensures
        mtu is None ==> value == 1500,
        mtu matches Some(told) ==> value == told,
{
}

/// The line on a proxy's configuration names its address, its MAC address, its
/// prefix and its MTU, in this order.
pub proof fn proxy_config_names_its_parts(config: ProxyConfig, out: String)
    requires
        call_ensures(ProxyConfig::to_text, (&config,), out),
    ensures
        out@ == "tap_ip="@ + ip_text::ip_text(config.tap_ip) + ", tap_mac="@ + (text::hex(
            config.tap_mac@[0],
        ) + seq!['-'] + text::hex(config.tap_mac@[1]) + seq!['-'] + text::hex(config.tap_mac@[2])
            + seq!['-'] + text::hex(config.tap_mac@[3]) + seq!['-'] + text::hex(config.tap_mac@[4])
            + seq!['-'] + text::hex(config.tap_mac@[5])) + ", prefix_len="@ + text::decimal(
            config.prefix_len as nat,
        ) + ", mtu="@ + text::decimal(config.mtu as nat),
{
}

/// Reading begins with the first of the bytes.
pub proof fn cursors_begin_at_the_front<'a>(data: &'a [u8], cursor: Cursor<'a>)
    requires
        call_ensures(Cursor::<'a>::new, (data,), cursor),
    ensures
        cursor.position <= cursor.data@.len(),
        cursor.data@.skip(cursor.position as int) == data@,
{
}

/// Where a message is over the limit, its length and the limit are told.
pub proof fn too_large_is_told(
    writer: &mut Vec<u8>,
    msg: &[u8],
    written: Result<(), Error>,
    prefix: &[u8],
    length: Result<usize, Error>,
)
    requires
        call_ensures(write_framed, (writer, msg), written),
        prefix@.len() == 4,
        call_ensures(framed_length, (prefix,), length),
    ensures
        written matches Err(error) ==> error.message@ == "message too large: "@ + text::decimal(
            msg@.len(),
        ) + " bytes (max "@ + text::decimal(16_777_216) + ")"@,
        length matches Err(error) ==> error.message@ == "framed message too large: "@
            + text::decimal(
            (prefix@[0] + 0x100 * prefix@[1] + 0x1_0000 * prefix@[2] + 0x100_0000
                * prefix@[3]) as nat,
        ) + " bytes (max "@ + text::decimal(16_777_216) + ")"@,
{
    bytes::four_bytes_spell(prefix@);
}

/// A read that fails leaves nothing, but for what follows a length that is over the
/// limit.
pub proof fn failed_reads_leave_little(reader: &mut Cursor<'_>, result: Result<Vec<u8>, Error>)
    requires
        old(reader).wf(),
        call_ensures(read_framed, (reader,), result),
    ensures
        ({
            let all = old(reader).data@.skip(old(reader).position as int);
            let left = final(reader).data@.skip(final(reader).position as int);
            result matches Err(error) ==> {
                &&& error.kind == ErrorKind::UnexpectedEof ==> left.len() == 0 && error.message@
                    == "failed to fill whole buffer"@
                &&& error.kind == ErrorKind::InvalidData ==> left == all.skip(4)
            }
        }),
{
}

} // verus!
