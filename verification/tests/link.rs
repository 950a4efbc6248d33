use tap_tunnel::addr::{IpAddr, Ipv4Addr, Ipv6Addr, SocketAddr, SocketAddrV6};
use tap_tunnel::error::ErrorKind;
use tap_tunnel::ether::{
    arp_op_str, build_gratuitous_arp, describe_frame, inspect_frame, unwrap_packet, wrap_packet,
    FrameInfo,
};
use tap_tunnel::procnet::{parse_net_dev, InterfaceStats};
use tap_tunnel::protocol::{encode_control, encode_frame, ProxyCommand};
use tap_tunnel::relay::{
    accepts_length, announce, answer_command, client_message, fallback_tap_mac, hello_payload,
    proxy_identity, relay_step, tap_frame_message, ClientStep, CommandOutcome, ProxyReply,
    RelayAction, RelayEvent, RelayPhase, RelayWrite, RelayWriter, TapReader, TapStep,
};
use tap_tunnel::stack::channels::SendOutcome;
use tap_tunnel::tap::{
    flags_up, interface_name_field, netmask, plan_interface, InterfaceStep,
};
use tap_tunnel::transfer::Transfer;
use tap_tunnel::udp_message::{decode_udp_message, encode_udp_message};
use tap_tunnel::TapConfig;

const MAC: [u8; 6] = [2, 3, 4, 5, 6, 7];

fn v4(a: u8, b: u8, c: u8, d: u8) -> IpAddr {
    IpAddr::V4(Ipv4Addr::new(a, b, c, d))
}

#[test]
fn gratuitous_arp_is_an_arp_reply() {
    let frame = build_gratuitous_arp(MAC, Ipv4Addr::new(10, 0, 0, 1), [0xff; 6]);
    assert_eq!(
        frame,
        vec![
            0xff, 0xff, 0xff, 0xff, 0xff, 0xff, 2, 3, 4, 5, 6, 7, 0x08, 0x06, 0, 1, 8, 0, 6, 4, 0,
            2, 2, 3, 4, 5, 6, 7, 10, 0, 0, 1, 0xff, 0xff, 0xff, 0xff, 0xff, 0xff, 10, 0, 0, 1,
        ]
    );
    let ip = Ipv4Addr::new(10, 0, 0, 1);
    assert_eq!(inspect_frame(&frame), FrameInfo::Arp { source: ip, target: ip, operation: 2 });
    assert_eq!(describe_frame("RX", &frame), "RX 42 bytes: ARP 10.0.0.1 -> 10.0.0.1 Reply");
}

#[test]
fn frames_are_described() {
    let mut frame = vec![0u8; 12];
    assert_eq!(describe_frame("TX", &frame), "TX 12 bytes: (invalid frame)");
    frame.extend_from_slice(&[0x86, 0xdd]);
    assert_eq!(describe_frame("TX", &frame), "TX 14 bytes: IPv6");
    frame[13] = 0xde;
    assert_eq!(describe_frame("TX", &frame), "TX 14 bytes: ethertype=Unknown(34526)");
    frame[12] = 8;
    frame[13] = 6;
    assert_eq!(describe_frame("TX", &frame), "TX 14 bytes: ARP (malformed)");
    frame[13] = 0;
    assert_eq!(describe_frame("TX", &frame), "TX 14 bytes: IPv4 (malformed)");
    let packet = [
        0x45, 0, 0, 20, 0, 0, 0, 0, 64, 6, 0, 0, 10, 0, 0, 2, 10, 0, 0, 1,
    ];
    frame.extend_from_slice(&packet);
    assert_eq!(describe_frame("RX", &frame), "RX 34 bytes: IPv4 10.0.0.2 -> 10.0.0.1 proto=Tcp");
    frame[14 + 9] = 17;
    assert_eq!(describe_frame("RX", &frame), "RX 34 bytes: IPv4 10.0.0.2 -> 10.0.0.1 proto=Udp");
    frame[14 + 9] = 200;
    assert_eq!(
        describe_frame("RX", &frame),
        "RX 34 bytes: IPv4 10.0.0.2 -> 10.0.0.1 proto=Unknown(200)"
    );
    frame[14 + 3] = 21;
    assert_eq!(inspect_frame(&frame), FrameInfo::MalformedIpv4);
    frame[14 + 3] = 19;
    assert_eq!(inspect_frame(&frame), FrameInfo::MalformedIpv4);
    assert_eq!(arp_op_str(1), "Request");
    assert_eq!(arp_op_str(2), "Reply");
    assert_eq!(arp_op_str(3), "Unknown");
}

#[test]
fn packets_travel_in_frames() {
    let frame = wrap_packet(&[0x45, 1, 2], &MAC);
    assert_eq!(&frame[..6], &[0xff; 6]);
    assert_eq!(&frame[6..12], &MAC);
    assert_eq!(&frame[12..14], &[0x08, 0x00]);
    assert_eq!(unwrap_packet(&frame).unwrap(), vec![0x45, 1, 2]);
    assert_eq!(&wrap_packet(&[0x60], &MAC)[12..14], &[0x86, 0xdd]);
    assert_eq!(&wrap_packet(&[0x00], &MAC)[12..14], &[0x08, 0x00]);
    assert!(unwrap_packet(&frame[..14]).is_none());
    assert!(unwrap_packet(&[]).is_none());
}

#[test]
fn relay_decides() {
    let frame = wrap_packet(&[0x45, 9], &MAC);
    match relay_step(RelayEvent::TapFrame(frame), &MAC) {
        RelayAction::SendPacket(packet) => assert_eq!(packet, vec![0x45, 9]),
        other => panic!("{:?}", other),
    }
    assert!(matches!(relay_step(RelayEvent::TapFrame(vec![0; 14]), &MAC), RelayAction::GoOn));
    match relay_step(RelayEvent::SocketPacket(vec![0x60, 1]), &MAC) {
        RelayAction::WriteFrame(frame) => assert_eq!(frame, wrap_packet(&[0x60, 1], &MAC)),
        other => panic!("{:?}", other),
    }
    assert!(matches!(relay_step(RelayEvent::SocketPacket(vec![]), &MAC), RelayAction::Exit));
    assert!(matches!(relay_step(RelayEvent::SocketHangUp, &MAC), RelayAction::Exit));
    assert!(matches!(relay_step(RelayEvent::WouldBlock, &MAC), RelayAction::GoOn));
    match relay_step(RelayEvent::TapGone, &MAC) {
        RelayAction::Fail(error) => {
            assert_eq!(error.kind, ErrorKind::BrokenPipe);
            assert_eq!(error.message, "TAP device closed");
        }
        other => panic!("{:?}", other),
    }
    match relay_step(RelayEvent::SocketError, &MAC) {
        RelayAction::Fail(error) => assert_eq!(error.message, "socket error"),
        other => panic!("{:?}", other),
    }
    assert_eq!(fallback_tap_mac(), [2, 0, 0, 0, 0, 1]);
}

#[test]
fn names_fit_their_field() {
    let mut expected = b"tap0".to_vec();
    expected.resize(16, 0);
    assert_eq!(interface_name_field(b"tap0"), expected);
    let field = interface_name_field(b"a-very-long-interface-name");
    assert_eq!(field, b"a-very-long-int\0".to_vec());
    assert_eq!(interface_name_field(b"fifteen-letters"), b"fifteen-letters\0".to_vec());
    assert_eq!(interface_name_field(b"sixteen--letters"), b"sixteen--letter\0".to_vec());
    assert_eq!(interface_name_field(b""), vec![0; 16]);
}

#[test]
fn masks_and_flags() {
    assert_eq!(netmask(24), 0xffff_ff00);
    assert_eq!(netmask(32), 0xffff_ffff);
    assert_eq!(netmask(200), 0xffff_ffff);
    assert_eq!(netmask(1), 0x8000_0000);
    assert_eq!(netmask(0), 0);
    assert_eq!(netmask(31), 0xffff_fffe);
    assert_eq!(flags_up(0), 1);
    assert_eq!(flags_up(1), 1);
    assert_eq!(flags_up(0x1002), 0x1003);
    assert_eq!(flags_up(0xffff), 0xffff);
}

#[test]
fn interface_is_planned() {
    let rest = [InterfaceStep::SetTxQueueLen { len: 5000 }, InterfaceStep::BringUp, InterfaceStep::ReadMac];
    assert_eq!(plan_interface(None, None).unwrap(), rest.to_vec());
    let ip = v4(10, 0, 0, 1);
    let steps = plan_interface(Some((ip, 24)), Some(4000)).unwrap();
    assert_eq!(steps[0], InterfaceStep::AddAddress { ip, prefix_len: 24 });
    assert_eq!(steps[1], InterfaceStep::SetMtu { mtu: 4000 });
    assert_eq!(steps[2..], rest);
    let error = plan_interface(Some((ip, 33)), None).unwrap_err();
    assert_eq!(error.kind, ErrorKind::Other);
    assert_eq!(error.message, "invalid IP prefix length");
    let v6 = IpAddr::V6(Ipv6Addr { bits: 1 });
    assert!(plan_interface(Some((v6, 128)), None).is_ok());
    assert!(plan_interface(Some((v6, 129)), None).is_err());
}

#[test]
fn datagrams_keep_their_address() {
    let addr = SocketAddr::new(v4(10, 0, 0, 1), 0x1234);
    let message = encode_udp_message(addr, b"hi");
    assert_eq!(message, vec![4, 10, 0, 0, 1, 0x34, 0x12, b'h', b'i']);
    assert_eq!(decode_udp_message(&message).unwrap(), (addr, b"hi".to_vec()));
    let v6 = Ipv6Addr::new(0xfd00, 0, 0, 0, 0, 0, 0, 1);
    let addr = SocketAddr::new(IpAddr::V6(v6), 53);
    let message = encode_udp_message(addr, b"");
    assert_eq!(message.len(), 19);
    assert_eq!(decode_udp_message(&message).unwrap(), (addr, vec![]));
    let scoped = SocketAddr::V6(SocketAddrV6 { ip: v6, port: 53, flowinfo: 1, scope_id: 2 });
    assert_eq!(decode_udp_message(&encode_udp_message(scoped, b"")).unwrap(), (addr, vec![]));
}

#[test]
fn broken_datagrams_are_explained() {
    let fault = |buf: &[u8]| {
        let error = decode_udp_message(buf).unwrap_err();
        assert_eq!(error.kind, ErrorKind::InvalidData);
        error.message
    };
    assert_eq!(fault(&[]), "empty message");
    assert_eq!(fault(&[4, 1, 2, 3, 4, 5]), "message too short");
    assert_eq!(fault(&[6; 18]), "message too short");
    assert_eq!(fault(&[5]), "invalid address tag: 5");
    assert_eq!(fault(&[255, 0]), "invalid address tag: 255");
}

const NET_DEV: &str = "Inter-|   Receive                                                |  Transmit
 face |bytes    packets errs drop fifo frame compressed multicast|bytes    packets errs drop fifo colls carrier compressed
    lo:    1500      20    1    2    0     0          0         0     3000      40    3    4    0     0       0          0
  tap0: 18446744073709551615 18446744073709551616 x +7 0 0 0 0 8 9 10 11
short: 1 2 3
    lo:       1       2    3    4    0     0          0         0        5       6    7    8
";

#[test]
fn interface_list_is_read() {
    let entries = parse_net_dev(NET_DEV);
    assert_eq!(entries.len(), 2);
    let tap0 = entries.iter().find(|e| e.0 == "tap0").unwrap().1;
    assert_eq!(
        tap0,
        InterfaceStats {
            rx_bytes: u64::MAX,
            rx_packets: 0,
            rx_errors: 0,
            rx_dropped: 7,
            tx_bytes: 8,
            tx_packets: 9,
            tx_errors: 10,
            tx_dropped: 11,
        }
    );
    let lo = entries.iter().find(|e| e.0 == "lo").unwrap().1;
    assert_eq!(
        lo,
        InterfaceStats {
            rx_bytes: 1,
            rx_packets: 2,
            rx_errors: 3,
            rx_dropped: 4,
            tx_bytes: 5,
            tx_packets: 6,
            tx_errors: 7,
            tx_dropped: 8,
        }
    );
    assert!(parse_net_dev("").is_empty());
    assert!(parse_net_dev("one line").is_empty());
    assert!(parse_net_dev("two\nlines").is_empty());
    let windows = parse_net_dev("a\r\nb\r\neth0:: 1 2 3 4 5 6 7 8 9 10 11 12\r\n");
    assert_eq!(windows.len(), 1);
    assert_eq!(windows[0].0, "eth0");
    assert_eq!(windows[0].1.tx_dropped, 12);
}

#[test]
fn commands_are_answered() {
    let add = ProxyCommand::AddRoute { id: 3, destination: v4(10, 9, 0, 0), prefix_len: 16 };
    match answer_command(add, CommandOutcome::Route(Ok(()))) {
        ProxyReply::Status(response) => {
            assert_eq!(response.id, 3);
            assert!(response.error.is_none());
        }
        other => panic!("{:?}", other),
    }
    let remove = ProxyCommand::RemoveRoute { id: 4, destination: v4(10, 9, 0, 0), prefix_len: 16 };
    match answer_command(remove, CommandOutcome::Route(Err(String::from("no such route")))) {
        ProxyReply::Status(response) => {
            assert_eq!(response.id, 4);
            assert_eq!(response.error.unwrap(), "no such route");
        }
        other => panic!("{:?}", other),
    }
    let stats = ProxyCommand::GetIfaceStats { id: 5 };
    let reply = answer_command(stats, CommandOutcome::NetDev(Ok(String::from(NET_DEV))));
    assert_eq!(reply.id(), 5);
    match reply {
        ProxyReply::IfaceStats { id, interfaces } => {
            assert_eq!(id, 5);
            assert_eq!(interfaces.len(), 2);
        }
        other => panic!("{:?}", other),
    }
    match answer_command(stats, CommandOutcome::NetDev(Err(String::from("denied")))) {
        ProxyReply::Status(response) => assert_eq!(response.error.unwrap(), "denied"),
        other => panic!("{:?}", other),
    }
}

#[test]
fn hello_is_a_control_message() {
    assert_eq!(hello_payload(&encode_control(b"{}")).unwrap(), b"{}");
    let error = hello_payload(&encode_frame(b"x")).unwrap_err();
    assert_eq!(error.kind, ErrorKind::InvalidData);
    assert_eq!(error.message, "expected ClientHello, got frame");
    assert_eq!(hello_payload(&[]).unwrap_err().message, "empty message");
    assert_eq!(hello_payload(&[7]).unwrap_err().message, "unknown message type: 0x07");
}

#[test]
fn proxy_tells_who_it_is() {
    let error = proxy_identity(&TapConfig::new(), MAC).unwrap_err();
    assert_eq!(error.kind, ErrorKind::InvalidInput);
    assert_eq!(error.message, "tap_addr must be configured");
    let config = TapConfig::new().peer_addr(v4(10, 0, 0, 1), 24).mtu(900);
    let identity = proxy_identity(&config, MAC).unwrap();
    assert_eq!(identity.tap_ip, v4(10, 0, 0, 1));
    assert_eq!(identity.tap_mac, MAC);
    assert_eq!(identity.prefix_len, 24);
    assert_eq!(identity.mtu, 900);
}

#[test]
fn ipv4_addresses_are_announced() {
    let out = announce(Some((v4(10, 0, 0, 1), 24)), MAC).unwrap();
    assert_eq!(&out[..5], &[43, 0, 0, 0, 1]);
    assert_eq!(out[5..], build_gratuitous_arp(MAC, Ipv4Addr::new(10, 0, 0, 1), [0xff; 6]));
    assert!(announce(None, MAC).is_none());
    assert!(announce(Some((IpAddr::V6(Ipv6Addr { bits: 1 }), 64)), MAC).is_none());
}

#[test]
fn tap_frames_become_messages() {
    assert_eq!(tap_frame_message(b"frame").unwrap(), encode_frame(b"frame"));
    assert!(tap_frame_message(b"").is_none());
    let mut reader = TapReader::new();
    assert_eq!(reader.handed_over(SendOutcome::Sent), TapStep::GoOn);
    assert_eq!(reader.handed_over(SendOutcome::Full), TapStep::Report(1));
    for _ in 0..999 {
        assert_eq!(reader.handed_over(SendOutcome::Full), TapStep::GoOn);
    }
    assert_eq!(reader.handed_over(SendOutcome::Full), TapStep::Report(1001));
    assert_eq!(reader.handed_over(SendOutcome::Closed), TapStep::Stop);
    assert_eq!(reader.dropped, 1001);
}

#[test]
fn client_messages_are_sorted() {
    assert!(!accepts_length(0, 1514));
    assert!(accepts_length(1, 1514));
    assert!(accepts_length(1530, 1514));
    assert!(!accepts_length(1531, 1514));
    match client_message(&encode_frame(b"frame")) {
        ClientStep::WriteTap(frame) => assert_eq!(frame, b"frame"),
        other => panic!("{:?}", other),
    }
    match client_message(&encode_control(b"{}")) {
        ClientStep::Command(payload) => assert_eq!(payload, b"{}"),
        other => panic!("{:?}", other),
    }
    match client_message(&[9]) {
        ClientStep::Ignore(error) => assert_eq!(error.message, "unknown message type: 0x09"),
        other => panic!("{:?}", other),
    }
}

#[test]
fn transfers_add_up() {
    let mut transfer = Transfer::new(5);
    assert_eq!(transfer.next(), Some(0));
    transfer.wrote(2).unwrap();
    assert_eq!(transfer.next(), Some(2));
    let error = transfer.wrote(0).unwrap_err();
    assert_eq!(error.kind, ErrorKind::WriteZero);
    assert_eq!(error.message, "failed to write whole buffer");
    transfer.advance(0);
    let error = transfer.read(0).unwrap_err();
    assert_eq!(error.kind, ErrorKind::UnexpectedEof);
    assert_eq!(error.message, "connection closed");
    transfer.read(3).unwrap();
    assert_eq!(transfer.next(), None);
    assert_eq!(Transfer::new(0).next(), None);
}

#[test]
fn relay_writer_goes_round() {
    let frame = RelayWrite::Frame { written: true };
    let answer = RelayWrite::Answer { written: true };
    let flushed = RelayWrite::Flushed { written: true };
    let mut writer = RelayWriter::new();
    for (event, phase) in [
        (answer, RelayPhase::DrainingFrames),
        (frame, RelayPhase::DrainingFrames),
        (RelayWrite::Drained, RelayPhase::DrainingAnswers),
        (answer, RelayPhase::DrainingAnswers),
        (RelayWrite::Drained, RelayPhase::Flushing),
        (flushed, RelayPhase::Waiting),
        (RelayWrite::FramesClosed, RelayPhase::LastFlush),
        (flushed, RelayPhase::Done),
    ] {
        writer.on_event(event);
        assert_eq!(writer.phase, phase);
    }
}

#[test]
fn relay_writer_ends_on_failure() {
    let mut writer = RelayWriter::new();
    writer.on_event(RelayWrite::Frame { written: false });
    assert_eq!(writer.phase, RelayPhase::Done);
    let mut writer = RelayWriter::new();
    writer.on_event(RelayWrite::Frame { written: true });
    writer.on_event(RelayWrite::Drained);
    writer.on_event(RelayWrite::Answer { written: false });
    assert_eq!(writer.phase, RelayPhase::Done);
}
