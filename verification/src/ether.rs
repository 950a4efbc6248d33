//! Ethernet frames: building, unpacking and describing them.

use vstd::prelude::*;

use crate::addr::{IpAddr, Ipv4Addr};
use crate::bytes;
use crate::ip_text;
use crate::text;

verus! {

/// Ethernet header size in bytes.
pub const ETH_HEADER_SIZE: usize = 14;

/// EtherType for IPv4
pub const ETHERTYPE_IPV4: u16 = 0x0800;

/// EtherType for ARP
pub const ETHERTYPE_ARP: u16 = 0x0806;

/// EtherType for IPv6
pub const ETHERTYPE_IPV6: u16 = 0x86DD;

/// A six-byte hardware address.
pub type Mac = [u8; 6];

/// The address of all hosts on the link.
pub open spec fn broadcast() -> Seq<u8> {
    seq![0xffu8, 0xff, 0xff, 0xff, 0xff, 0xff]
}

/// The address of all hosts on the link.
pub fn broadcast_mac() -> (mac: Mac)
    ensures
        mac@ == broadcast(),
{
    let mac: Mac = [0xff, 0xff, 0xff, 0xff, 0xff, 0xff];
    assert(mac@ =~= broadcast());
    mac
}

/// An Ethernet header: destination, source, and what follows.
pub open spec fn eth_header(dst: Seq<u8>, src: Seq<u8>, ethertype: u16) -> Seq<u8> {
    dst + src + bytes::be_bytes(ethertype as nat, 2)
}

fn append_mac(frame: &mut Vec<u8>, mac: &Mac)
    ensures
        final(frame)@ == old(frame)@ + mac@,
{
    let ghost before = frame@;
    let mut i: usize = 0;
    while i < 6
        invariant
            i <= 6,
            frame@ == before + mac@.take(i as int),
        decreases 6 - i,
    {
        frame.push(mac[i]);
        i = i + 1;
        assert(frame@ =~= before + mac@.take(i as int));
    }
    assert(mac@.take(6) =~= mac@);
}

fn append_u16(frame: &mut Vec<u8>, value: u16)
    ensures
        final(frame)@ == old(frame)@ + bytes::be_bytes(value as nat, 2),
{
    bytes::append(frame, bytes::to_be_bytes(value as u128, 2).as_slice());
}

/// An ARP packet over Ethernet and IPv4.
pub open spec fn arp_packet(
    operation: u16,
    sender_mac: Seq<u8>,
    sender_ip: Ipv4Addr,
    target_mac: Seq<u8>,
    target_ip: Ipv4Addr,
) -> Seq<u8> {
    bytes::be_bytes(1, 2) + bytes::be_bytes(ETHERTYPE_IPV4 as nat, 2) + seq![6u8, 4] + bytes::be_bytes(
        operation as nat,
        2,
    ) + sender_mac + bytes::be_bytes(sender_ip.bits as nat, 4) + target_mac + bytes::be_bytes(
        target_ip.bits as nat,
        4,
    )
}

/// Operation of an ARP reply.
pub const ARP_REPLY: u16 = 2;

/// Build a gratuitous ARP reply frame.
///
/// This announces the IP/MAC mapping to pre-fill the peer's ARP cache
/// and signals that the proxy is ready.
pub fn build_gratuitous_arp(sender_mac: Mac, sender_ip: Ipv4Addr, target_mac: Mac) -> (frame: Vec<
    u8,
>)
    ensures
        frame@ == eth_header(target_mac@, sender_mac@, ETHERTYPE_ARP) + arp_packet(
            ARP_REPLY,
            sender_mac@,
            sender_ip,
            target_mac@,
            sender_ip,
        ),
        frame@.len() == 42,
{
    let mut frame: Vec<u8> = Vec::new();
    append_mac(&mut frame, &target_mac);
    append_mac(&mut frame, &sender_mac);
    append_u16(&mut frame, ETHERTYPE_ARP);
    append_u16(&mut frame, 1);
    append_u16(&mut frame, ETHERTYPE_IPV4);
    frame.push(6);
    frame.push(4);
    append_u16(&mut frame, ARP_REPLY);
    append_mac(&mut frame, &sender_mac);
    bytes::append(&mut frame, sender_ip.octets().as_slice());
    append_mac(&mut frame, &target_mac);
    bytes::append(&mut frame, sender_ip.octets().as_slice());
    proof {
        bytes::lemma_be_bytes_len(ETHERTYPE_ARP as nat, 2);
        bytes::lemma_be_bytes_len(ETHERTYPE_IPV4 as nat, 2);
        bytes::lemma_be_bytes_len(1, 2);
        bytes::lemma_be_bytes_len(ARP_REPLY as nat, 2);
        bytes::lemma_be_bytes_len(sender_ip.bits as nat, 4);
        assert(frame@ =~= eth_header(target_mac@, sender_mac@, ETHERTYPE_ARP) + arp_packet(
            ARP_REPLY,
            sender_mac@,
            sender_ip,
            target_mac@,
            sender_ip,
        ));
    }
    frame
}

/// What kind of packet an IP packet is, by the version in its first byte.
pub open spec fn packet_ethertype(packet: Seq<u8>) -> u16 {
    if packet[0] / 16 == 6 {
        ETHERTYPE_IPV6
    } else {
        ETHERTYPE_IPV4
    }
}

/// An IP packet in a frame to all hosts.
pub open spec fn in_frame(packet: Seq<u8>, tap_mac: Seq<u8>) -> Seq<u8> {
    eth_header(broadcast(), tap_mac, packet_ethertype(packet)) + packet
}

/// Put an IP packet into a frame to all hosts.
pub fn wrap_packet(packet: &[u8], tap_mac: &Mac) -> (frame: Vec<u8>)
    requires
        packet@.len() > 0,
    ensures
        frame@ == in_frame(packet@, tap_mac@),
{
    let ethertype: u16 = if packet[0] / 16 == 6 {
        ETHERTYPE_IPV6
    } else {
        ETHERTYPE_IPV4
    };
    let mut frame: Vec<u8> = Vec::new();
    append_mac(&mut frame, &broadcast_mac());
    append_mac(&mut frame, tap_mac);
    append_u16(&mut frame, ethertype);
    bytes::append(&mut frame, packet);
    assert(frame@ =~= in_frame(packet@, tap_mac@));
    frame
}

/// The IP packet in a frame; nothing where there is only a header or less.
pub fn unwrap_packet(frame: &[u8]) -> (packet: Option<Vec<u8>>)
    ensures
        match packet {
            Some(packet) => frame@.len() > ETH_HEADER_SIZE && packet@ == frame@.skip(
                ETH_HEADER_SIZE as int,
            ),
            None => frame@.len() <= ETH_HEADER_SIZE,
        },
{
    if frame.len() <= ETH_HEADER_SIZE {
        return None;
    }
    let packet = bytes::copy_range(frame, ETH_HEADER_SIZE, frame.len());
    assert(packet@ =~= frame@.skip(ETH_HEADER_SIZE as int));
    Some(packet)
}

/// A packet comes out of a frame as it was put in.
pub proof fn wrapped_packet_comes_out(packet: Seq<u8>, tap_mac: Seq<u8>)
    requires
        packet.len() > 0,
        tap_mac.len() == 6,
    ensures
        in_frame(packet, tap_mac).len() > ETH_HEADER_SIZE,
        in_frame(packet, tap_mac).skip(ETH_HEADER_SIZE as int) == packet,
{
    bytes::lemma_be_bytes_len(packet_ethertype(packet) as nat, 2);
    assert(in_frame(packet, tap_mac).skip(ETH_HEADER_SIZE as int) =~= packet);
}

/// Two bytes as a number.
pub open spec fn u16_at(data: Seq<u8>, at: int) -> u16 {
    (256 * data[at] + data[at + 1]) as u16
}

/// Four bytes as an address.
pub open spec fn ip_at(data: Seq<u8>, at: int) -> Ipv4Addr {
    Ipv4Addr { bits: bytes::be_value(data.subrange(at, at + 4)) as u32 }
}

/// `EthernetFrame::new_checked` of `smoltcp`, and the frame's `ethertype` and
/// `payload`: a frame needs its header of 14 bytes.
#[verifier::external_body]
fn ethernet_fields(frame: &[u8]) -> (fields: Option<(u16, Vec<u8>)>)
    ensures
        match fields {
            Some((ethertype, payload)) => frame@.len() >= ETH_HEADER_SIZE && ethertype == u16_at(
                frame@,
                12,
            ) && payload@ == frame@.skip(ETH_HEADER_SIZE as int),
            None => frame@.len() < ETH_HEADER_SIZE,
        },
{
    let frame = smoltcp::wire::EthernetFrame::new_checked(frame).ok()?;
    Some((frame.ethertype().into(), frame.payload().to_vec()))
}

/// The lengths in the header of an IPv4 packet fit the packet and each other.
pub open spec fn is_ipv4(packet: Seq<u8>) -> bool {
    let header_len = 4 * (packet[0] % 16);
    &&& packet.len() >= 20
    &&& header_len <= packet.len()
    &&& header_len <= u16_at(packet, 2)
    &&& u16_at(packet, 2) <= packet.len()
}

/// `Ipv4Packet::new_checked` of `smoltcp`, and the packet's `src_addr`,
/// `dst_addr` and `next_header`.
#[verifier::external_body]
fn ipv4_fields(packet: &[u8]) -> (fields: Option<(Ipv4Addr, Ipv4Addr, u8)>)
    ensures
        match fields {
            Some((src, dst, protocol)) => is_ipv4(packet@) && src == ip_at(packet@, 12) && dst
                == ip_at(packet@, 16) && protocol == packet@[9],
            None => !is_ipv4(packet@),
        },
{
    let packet = smoltcp::wire::Ipv4Packet::new_checked(packet).ok()?;
    let src = Ipv4Addr { bits: packet.src_addr().to_bits() };
    let dst = Ipv4Addr { bits: packet.dst_addr().to_bits() };
    Some((src, dst, packet.next_header().into()))
}

/// An ARP packet over Ethernet and IPv4, of full length.
pub open spec fn is_arp(packet: Seq<u8>) -> bool {
    &&& packet.len() >= 28
    &&& u16_at(packet, 0) == 1
    &&& u16_at(packet, 2) == ETHERTYPE_IPV4
    &&& packet[4] == 6
    &&& packet[5] == 4
}

/// `ArpPacket::new_checked` and `ArpRepr::parse` of `smoltcp`: the operation,
/// and the protocol addresses of source and target.
#[verifier::external_body]
fn arp_fields(packet: &[u8]) -> (fields: Option<(u16, Ipv4Addr, Ipv4Addr)>)
    ensures
        match fields {
            Some((operation, source, target)) => is_arp(packet@) && operation == u16_at(packet@, 6)
                && source == ip_at(packet@, 14) && target == ip_at(packet@, 24),
            None => !is_arp(packet@),
        },
{
    let packet = smoltcp::wire::ArpPacket::new_checked(packet).ok()?;
    match smoltcp::wire::ArpRepr::parse(&packet).ok()? {
        smoltcp::wire::ArpRepr::EthernetIpv4 {
            operation,
            source_protocol_addr: source,
            target_protocol_addr: target,
            ..
        } => Some((
            operation.into(),
            Ipv4Addr { bits: source.to_bits() },
            Ipv4Addr { bits: target.to_bits() },
        )),
        _ => None,
    }
}

/// How `smoltcp` calls an IP protocol.
pub open spec fn protocol_name(protocol: u8) -> Seq<char> {
    match protocol {
        0 => "HopByHop"@,
        1 => "Icmp"@,
        2 => "Igmp"@,
        6 => "Tcp"@,
        17 => "Udp"@,
        43 => "Ipv6Route"@,
        44 => "Ipv6Frag"@,
        50 => "IpSecEsp"@,
        51 => "IpSecAh"@,
        58 => "Icmpv6"@,
        59 => "Ipv6NoNxt"@,
        60 => "Ipv6Opts"@,
        _ => "Unknown("@ + text::decimal(protocol as nat) + ")"@,
    }
}

/// `Debug` of `smoltcp::wire::IpProtocol`: a short name for the protocols that
/// it knows, the number of the others.
#[verifier::external_body]
fn protocol_to_name(protocol: u8) -> (name: String)
    ensures
        name@ == protocol_name(protocol),
{
    format!("{:?}", smoltcp::wire::IpProtocol::from(protocol))
}

/// What a frame carries.
#[derive(Clone, Copy, Debug, PartialEq, Eq, Structural)]
pub enum FrameInfo {
    Invalid,
    Ipv4 { src: Ipv4Addr, dst: Ipv4Addr, protocol: u8 },
    MalformedIpv4,
    Arp { source: Ipv4Addr, target: Ipv4Addr, operation: u16 },
    MalformedArp,
    Ipv6,
    Other { ethertype: u16 },
}

/// What a frame carries.
pub open spec fn frame_info(frame: Seq<u8>) -> FrameInfo {
    let payload = frame.skip(ETH_HEADER_SIZE as int);
    if frame.len() < ETH_HEADER_SIZE {
        FrameInfo::Invalid
    } else if u16_at(frame, 12) == ETHERTYPE_IPV4 {
        if is_ipv4(payload) {
            FrameInfo::Ipv4 {
                src: ip_at(payload, 12),
                dst: ip_at(payload, 16),
                protocol: payload[9],
            }
        } else {
            FrameInfo::MalformedIpv4
        }
    } else if u16_at(frame, 12) == ETHERTYPE_ARP {
        if is_arp(payload) {
            FrameInfo::Arp {
                source: ip_at(payload, 14),
                target: ip_at(payload, 24),
                operation: u16_at(payload, 6),
            }
        } else {
            FrameInfo::MalformedArp
        }
    } else if u16_at(frame, 12) == ETHERTYPE_IPV6 {
        FrameInfo::Ipv6
    } else {
        FrameInfo::Other { ethertype: u16_at(frame, 12) }
    }
}

/// Look at what a frame carries.
pub fn inspect_frame(frame: &[u8]) -> (info: FrameInfo)
    ensures
        info == frame_info(frame@),
{
    match ethernet_fields(frame) {
        None => FrameInfo::Invalid,
        Some((ethertype, payload)) => {
            if ethertype == ETHERTYPE_IPV4 {
                match ipv4_fields(&payload) {
                    Some((src, dst, protocol)) => FrameInfo::Ipv4 { src, dst, protocol },
                    None => FrameInfo::MalformedIpv4,
                }
            } else if ethertype == ETHERTYPE_ARP {
                match arp_fields(&payload) {
                    Some((operation, source, target)) => FrameInfo::Arp {
                        source,
                        target,
                        operation,
                    },
                    None => FrameInfo::MalformedArp,
                }
            } else if ethertype == ETHERTYPE_IPV6 {
                FrameInfo::Ipv6
            } else {
                FrameInfo::Other { ethertype }
            }
        },
    }
}

/// How an ARP operation is called.
pub open spec fn arp_op_text(operation: u16) -> Seq<char> {
    if operation == 1 {
        "Request"@
    } else if operation == ARP_REPLY {
        "Reply"@
    } else {
        "Unknown"@
    }
}

/// How an ARP operation is called.
pub fn arp_op_str(operation: u16) -> (name: &'static str)
    ensures
        name@ == arp_op_text(operation),
{
    if operation == 1 {
        "Request"
    } else if operation == ARP_REPLY {
        "Reply"
    } else {
        "Unknown"
    }
}

/// What a frame carries, in words.
pub open spec fn info_text(info: FrameInfo) -> Seq<char> {
    match info {
        FrameInfo::Invalid => "(invalid frame)"@,
        FrameInfo::Ipv4 { src, dst, protocol } => "IPv4 "@ + ip_text::ipv4_text(src.bits) + " -> "@
            + ip_text::ipv4_text(dst.bits) + " proto="@ + protocol_name(protocol),
        FrameInfo::MalformedIpv4 => "IPv4 (malformed)"@,
        FrameInfo::Arp { source, target, operation } => "ARP "@ + ip_text::ipv4_text(source.bits)
            + " -> "@ + ip_text::ipv4_text(target.bits) + " "@ + arp_op_text(operation),
        FrameInfo::MalformedArp => "ARP (malformed)"@,
        FrameInfo::Ipv6 => "IPv6"@,
        FrameInfo::Other { ethertype } => "ethertype=Unknown("@ + text::decimal(ethertype as nat)
            + ")"@,
    }
}

fn info_to_text(info: FrameInfo) -> (out: String)
    ensures
        out@ == info_text(info),
{
    match info {
        FrameInfo::Invalid => "(invalid frame)".to_owned(),
        FrameInfo::Ipv4 { src, dst, protocol } => {
            let mut out = text::join("IPv4 ", ip_text::ip_to_text(IpAddr::V4(src)).as_str());
            out.append(" -> ");
            out.append(ip_text::ip_to_text(IpAddr::V4(dst)).as_str());
            out.append(" proto=");
            out.append(protocol_to_name(protocol).as_str());
            out
        },
        FrameInfo::MalformedIpv4 => "IPv4 (malformed)".to_owned(),
        FrameInfo::Arp { source, target, operation } => {
            let mut out = text::join("ARP ", ip_text::ip_to_text(IpAddr::V4(source)).as_str());
            out.append(" -> ");
            out.append(ip_text::ip_to_text(IpAddr::V4(target)).as_str());
            out.append(" ");
            out.append(arp_op_str(operation));
            out
        },
        FrameInfo::MalformedArp => "ARP (malformed)".to_owned(),
        FrameInfo::Ipv6 => "IPv6".to_owned(),
        FrameInfo::Other { ethertype } => {
            let mut out = text::join(
                "ethertype=Unknown(",
                text::to_decimal(ethertype as u64).as_str(),
            );
            out.append(")");
            out
        },
    }
}

/// A frame in one line: its direction, its size, and what it carries.
pub fn describe_frame(direction: &str, frame: &[u8]) -> (line: String)
    ensures
        line@ == direction@ + " "@ + text::decimal(frame@.len()) + " bytes: "@ + info_text(
            frame_info(frame@),
        ),
{
    let mut line = text::join(direction, " ");
    line.append(text::to_decimal(frame.len() as u64).as_str());
    line.append(" bytes: ");
    line.append(info_to_text(inspect_frame(frame)).as_str());
    line
}

/// An announcement has every field of an ARP reply in its place: it goes to the
/// target from the sender, and maps the sender's address to the sender.
pub proof fn announcements_have_their_fields(
    sender_mac: Mac,
    sender_ip: Ipv4Addr,
    target_mac: Mac,
    frame: Vec<u8>,
)
    requires
        call_ensures(build_gratuitous_arp, (sender_mac, sender_ip, target_mac), frame),
    ensures
        frame@.len() == 42,
        frame@.subrange(0, 6) == target_mac@,
        frame@.subrange(6, 12) == sender_mac@,
        frame@.subrange(12, 22) == seq![0x08u8, 0x06, 0, 1, 0x08, 0, 6, 4, 0, 2],
        frame@.subrange(22, 28) == sender_mac@,
        0x100_0000 * frame@[28] + 0x1_0000 * frame@[29] + 0x100 * frame@[30] + frame@[31]
            == sender_ip.bits,
        frame@.subrange(32, 38) == target_mac@,
        frame@.subrange(38, 42) == frame@.subrange(28, 32),
{
    let kind = bytes::be_bytes(0x0806, 2);
    let one = bytes::be_bytes(1, 2);
    let ipv4 = bytes::be_bytes(0x0800, 2);
    let reply = bytes::be_bytes(2, 2);
    let ip = bytes::be_bytes(sender_ip.bits as nat, 4);
    bytes::lemma_byte_range_values();
    bytes::be_bytes_read_back(0x0806, 2);
    bytes::be_bytes_read_back(1, 2);
    bytes::be_bytes_read_back(0x0800, 2);
    bytes::be_bytes_read_back(2, 2);
    bytes::be_bytes_read_back(sender_ip.bits as nat, 4);
    bytes::two_bytes_spell(kind);
    bytes::two_bytes_spell(one);
    bytes::two_bytes_spell(ipv4);
    bytes::two_bytes_spell(reply);
    bytes::four_bytes_spell(ip);
    let f = frame@;
    assert(f.subrange(0, 6) =~= target_mac@);
    assert(f.subrange(6, 12) =~= sender_mac@);
    assert(f.subrange(12, 14) =~= kind);
    assert(f.subrange(14, 16) =~= one);
    assert(f.subrange(16, 18) =~= ipv4);
    assert(f.subrange(18, 20) =~= seq![6u8, 4]);
    assert(f.subrange(20, 22) =~= reply);
    assert(f.subrange(12, 22) =~= kind + one + ipv4 + seq![6u8, 4] + reply);
    assert(f.subrange(12, 22) =~= seq![0x08u8, 0x06, 0, 1, 0x08, 0, 6, 4, 0, 2]);
    assert(f.subrange(22, 28) =~= sender_mac@);
    assert(f.subrange(28, 32) =~= ip);
    assert(f[28] == ip[0] && f[29] == ip[1] && f[30] == ip[2] && f[31] == ip[3]);
    assert(f.subrange(32, 38) =~= target_mac@);
    assert(f.subrange(38, 42) =~= ip);
}

/// A packet goes into a frame to all hosts, from the TAP interface, whole and of
/// the kind that its version says, and comes out of it as it went in.
pub proof fn frames_carry_their_packet(
    packet: &[u8],
    tap_mac: Mac,
    frame: Vec<u8>,
    slice: &[u8],
    out: Option<Vec<u8>>,
)
    requires
        packet@.len() > 0,
        call_ensures(wrap_packet, (packet, &tap_mac), frame),
        slice@ == frame@,
        call_ensures(unwrap_packet, (slice,), out),
    ensures
        frame@.len() == 14 + packet@.len(),
        frame@.subrange(0, 6) == seq![0xffu8, 0xff, 0xff, 0xff, 0xff, 0xff],
        frame@.subrange(6, 12) == tap_mac@,
        packet@[0] / 16 == 6 ==> frame@[12] == 0x86 && frame@[13] == 0xdd,
        packet@[0] / 16 != 6 ==> frame@[12] == 0x08 && frame@[13] == 0x00,
        frame@.skip(14) == packet@,
        out matches Some(again) && again@ == packet@,
{
    let six = bytes::be_bytes(0x86dd, 2);
    let four = bytes::be_bytes(0x0800, 2);
    bytes::lemma_byte_range_values();
    bytes::be_bytes_read_back(0x86dd, 2);
    bytes::be_bytes_read_back(0x0800, 2);
    bytes::two_bytes_spell(six);
    bytes::two_bytes_spell(four);
    wrapped_packet_comes_out(packet@, tap_mac@);
    assert(frame@.subrange(0, 6) =~= seq![0xffu8, 0xff, 0xff, 0xff, 0xff, 0xff]);
    assert(frame@.subrange(6, 12) =~= tap_mac@);
    assert(frame@.subrange(12, 14) =~= bytes::be_bytes(packet_ethertype(packet@) as nat, 2));
    assert(frame@[12] == frame@.subrange(12, 14)[0]);
    assert(frame@[13] == frame@.subrange(12, 14)[1]);
    assert(frame@.skip(14) =~= packet@);
}

/// What comes out of a frame is what follows its header of 14 bytes; nothing
/// comes out of less.
pub proof fn headers_have_fourteen_bytes(frame: &[u8], packet: Option<Vec<u8>>)
    requires
        call_ensures(unwrap_packet, (frame,), packet),
    ensures
        packet is Some <==> frame@.len() > 14,
        packet matches Some(packet) ==> packet@ == frame@.skip(14),
{
}

/// What is seen in a frame goes by the two bytes behind its addresses, and by
/// the fields of the packet in it.
pub proof fn frames_are_seen_for_what_they_are(frame: &[u8], info: FrameInfo)
    requires
        call_ensures(inspect_frame, (frame,), info),
    ensures
        ({
            let f = frame@;
            let p = f.skip(14);
            let kind = 256 * f[12] + f[13];
            let total = 256 * p[2] + p[3];
            let header = 4 * (p[0] % 16);
            let is_ip = p.len() >= 20 && header <= p.len() && header <= total && total <= p.len();
            let is_arp = p.len() >= 28 && p[0] == 0 && p[1] == 1 && p[2] == 0x08 && p[3] == 0
                && p[4] == 6 && p[5] == 4;
            &&& info is Invalid <==> f.len() < 14
            &&& f.len() >= 14 && kind == 0x0800 && !is_ip ==> info is MalformedIpv4
            &&& f.len() >= 14 && kind == 0x0800 && is_ip ==> (info matches FrameInfo::Ipv4 {
                src,
                dst,
                protocol,
            } && src.bits == 0x100_0000 * p[12] + 0x1_0000 * p[13] + 0x100 * p[14] + p[15]
                && dst.bits == 0x100_0000 * p[16] + 0x1_0000 * p[17] + 0x100 * p[18] + p[19]
                && protocol == p[9])
            &&& f.len() >= 14 && kind == 0x0806 && !is_arp ==> info is MalformedArp
            &&& f.len() >= 14 && kind == 0x0806 && is_arp ==> (info matches FrameInfo::Arp {
                source,
                target,
                operation,
            } && source.bits == 0x100_0000 * p[14] + 0x1_0000 * p[15] + 0x100 * p[16] + p[17]
                && target.bits == 0x100_0000 * p[24] + 0x1_0000 * p[25] + 0x100 * p[26] + p[27]
                && operation == 256 * p[6] + p[7])
            &&& f.len() >= 14 && kind == 0x86dd ==> info is Ipv6
            &&& f.len() >= 14 && kind != 0x0800 && kind != 0x0806 && kind != 0x86dd ==> (
            info matches FrameInfo::Other { ethertype } && ethertype == kind)
        }),
{
    let p = frame@.skip(14);
    if p.len() >= 20 {
        bytes::four_bytes_spell(p.subrange(12, 16));
        bytes::four_bytes_spell(p.subrange(16, 20));
    }
    if p.len() >= 28 {
        bytes::four_bytes_spell(p.subrange(14, 18));
        bytes::four_bytes_spell(p.subrange(24, 28));
    }
}

/// An operation of ARP is a request, a reply, or not known.
pub proof fn arp_operations_have_names(operation: u16, name: &'static str)
    requires
        call_ensures(arp_op_str, (operation,), name),
    ensures
        operation == 1 ==> name@ == "Request"@,
        operation == 2 ==> name@ == "Reply"@,
        operation != 1 && operation != 2 ==> name@ == "Unknown"@,
{
}

/// A frame's line tells its direction and its size, and then the addresses of
/// what it carries, from the source to the destination.
pub proof fn lines_tell_what_frames_carry(
    direction: &str,
    frame: &[u8],
    info: FrameInfo,
    line: String,
)
    requires
        call_ensures(inspect_frame, (frame,), info),
        call_ensures(describe_frame, (direction, frame), line),
    ensures
        line@ == direction@ + " "@ + text::decimal(frame@.len()) + " bytes: "@ + match info {
            FrameInfo::Invalid => "(invalid frame)"@,
            FrameInfo::Ipv4 { src, dst, protocol } => "IPv4 "@ + ip_text::ipv4_text(src.bits)
                + " -> "@ + ip_text::ipv4_text(dst.bits) + " proto="@ + protocol_name(protocol),
            FrameInfo::MalformedIpv4 => "IPv4 (malformed)"@,
            FrameInfo::Arp { source, target, operation } => "ARP "@ + ip_text::ipv4_text(
                source.bits,
            ) + " -> "@ + ip_text::ipv4_text(target.bits) + " "@ + if operation == 1 {
                "Request"@
            } else if operation == 2 {
                "Reply"@
            } else {
                "Unknown"@
            },
            FrameInfo::MalformedArp => "ARP (malformed)"@,
            FrameInfo::Ipv6 => "IPv6"@,
            FrameInfo::Other { ethertype } => "ethertype=Unknown("@ + text::decimal(
                ethertype as nat,
            ) + ")"@,
        },
{
}

/// The address of all hosts has all bits set.
pub proof fn broadcasts_go_to_all(mac: Mac)
    requires
        call_ensures(broadcast_mac, (), mac),
    ensures
        mac@.len() == 6,
        forall|i: int| 0 <= i < 6 ==> #[trigger] mac@[i] == 255,
{
}

} // verus!
