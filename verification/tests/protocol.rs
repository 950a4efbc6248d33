use tap_tunnel::addr::{IpAddr, Ipv4Addr, Ipv6Addr};
use tap_tunnel::error::ErrorKind;
use tap_tunnel::ip_text::parse_ip;
use tap_tunnel::protocol::{
    decode_message, default_client_ip, encode_control, encode_frame, framed_length, length_prefix,
    mtu_or_default, prefixed_length, read_framed, validate_ip_in_subnet, write_framed, ClientHello,
    Cursor, Message, ProxyCommand, ProxyConfig, ProxyResponse, LENGTH_PREFIX_SIZE,
    MAX_MESSAGE_SIZE, MSG_TYPE_CONTROL, MSG_TYPE_FRAME,
};

fn v4(a: u8, b: u8, c: u8, d: u8) -> IpAddr {
    IpAddr::V4(Ipv4Addr::new(a, b, c, d))
}

fn ip(text: &str) -> IpAddr {
    let chars: Vec<char> = text.chars().collect();
    parse_ip(&chars).unwrap()
}

#[test]
fn test_encode_decode_control() {
    let _hello = ClientHello::default();
    let json = serde_json::to_vec(&serde_json::Map::new()).unwrap();

    let encoded = encode_control(&json);
    assert_eq!(encoded[0], MSG_TYPE_CONTROL);

    let decoded: serde_json::Map<String, serde_json::Value> =
        serde_json::from_slice(&encoded[1..]).unwrap();
    assert!(decoded.is_empty());
}

#[test]
fn test_encode_decode_frame() {
    let frame = vec![
        0xff, 0xff, 0xff, 0xff, 0xff, 0xff, 0x00, 0x11, 0x22, 0x33, 0x44, 0x55,
    ];
    let encoded = encode_frame(&frame);
    assert_eq!(encoded[0], MSG_TYPE_FRAME);
    assert_eq!(&encoded[1..], &frame[..]);

    let decoded = decode_message(&encoded).unwrap();
    match decoded {
        Message::Frame(f) => assert_eq!(f, frame),
        _ => panic!("expected frame"),
    }
}

#[test]
fn control_message_decodes() {
    match decode_message(&encode_control(b"{}")).unwrap() {
        Message::Control(payload) => assert_eq!(payload, b"{}"),
        _ => panic!("expected control"),
    }
}

#[test]
fn undecodable_messages_are_explained() {
    let empty = decode_message(&[]).unwrap_err();
    assert_eq!(empty.kind, ErrorKind::InvalidData);
    assert_eq!(empty.message, "empty message");
    let unknown = decode_message(&[0x0a, 1, 2]).unwrap_err();
    assert_eq!(unknown.kind, ErrorKind::InvalidData);
    assert_eq!(unknown.message, "unknown message type: 0x0a");
    let unknown = decode_message(&[0xff]).unwrap_err();
    assert_eq!(unknown.message, "unknown message type: 0xff");
}

#[test]
fn test_default_client_ip_v4() {
    assert_eq!(default_client_ip(v4(10, 0, 0, 1)), v4(10, 0, 0, 2));
}

#[test]
fn test_default_client_ip_v6() {
    let tap_ip = ip("fd00::1");
    let client_ip = default_client_ip(tap_ip);
    assert_eq!(client_ip, ip("fd00::2"));
}

#[test]
fn default_client_ip_carries() {
    assert_eq!(default_client_ip(v4(10, 0, 0, 255)), v4(10, 0, 1, 0));
    assert_eq!(default_client_ip(ip("fd00::ffff")), ip("fd00::1:0"));
    let last = IpAddr::V6(Ipv6Addr { bits: u128::MAX });
    assert_eq!(default_client_ip(last), ip("::"));
}

#[test]
fn test_validate_ip_in_subnet_v4() {
    let tap_ip = v4(10, 0, 0, 1);
    assert!(validate_ip_in_subnet(v4(10, 0, 0, 5), tap_ip, 24));
    assert!(!validate_ip_in_subnet(v4(10, 0, 1, 5), tap_ip, 24));
}

#[test]
fn test_validate_ip_in_subnet_v6() {
    let tap_ip = ip("fd00::1");
    assert!(validate_ip_in_subnet(ip("fd00::5"), tap_ip, 64));
    assert!(!validate_ip_in_subnet(ip("fd01::5"), tap_ip, 64));
}

#[test]
fn full_prefixes_compare_whole_addresses() {
    assert!(validate_ip_in_subnet(v4(1, 2, 3, 4), v4(1, 2, 3, 4), 32));
    assert!(!validate_ip_in_subnet(v4(1, 2, 3, 5), v4(1, 2, 3, 4), 32));
    assert!(!validate_ip_in_subnet(v4(1, 2, 3, 5), v4(1, 2, 3, 4), 200));
    assert!(validate_ip_in_subnet(v4(1, 2, 3, 5), v4(1, 2, 3, 4), 31));
    assert!(validate_ip_in_subnet(ip("fd00::5"), ip("fd00::5"), 128));
    assert!(!validate_ip_in_subnet(ip("fd00::4"), ip("fd00::5"), 128));
    assert!(validate_ip_in_subnet(ip("fd00::4"), ip("fd00::5"), 127));
    assert!(validate_ip_in_subnet(v4(200, 0, 0, 1), v4(129, 0, 0, 1), 1));
    assert!(!validate_ip_in_subnet(v4(100, 0, 0, 1), v4(129, 0, 0, 1), 1));
}

#[test]
fn empty_prefix_holds_every_address_of_the_family() {
    assert!(validate_ip_in_subnet(v4(192, 168, 1, 1), v4(10, 0, 0, 1), 0));
    assert!(validate_ip_in_subnet(ip("2001::1"), ip("fd00::1"), 0));
    assert!(!validate_ip_in_subnet(ip("2001::1"), v4(10, 0, 0, 1), 0));
}

#[test]
fn test_validate_ip_mixed_families() {
    let v4 = v4(10, 0, 0, 1);
    let v6 = ip("fd00::1");
    assert!(!validate_ip_in_subnet(v6, v4, 24));
    assert!(!validate_ip_in_subnet(v4, v6, 64));
}

#[test]
fn test_framed_roundtrip() {
    let msg = b"hello framed world";
    let mut buf = Vec::new();
    write_framed(&mut buf, msg).unwrap();

    // Verify wire format: 4-byte LE length + payload
    assert_eq!(buf.len(), LENGTH_PREFIX_SIZE + msg.len());
    let len = u32::from_le_bytes(buf[..4].try_into().unwrap()) as usize;
    assert_eq!(len, msg.len());

    let mut cursor = Cursor::new(&buf);
    let decoded = read_framed(&mut cursor).unwrap();
    assert_eq!(&decoded, msg);
}

#[test]
fn test_framed_empty_message() {
    let msg = b"";
    let mut buf = Vec::new();
    write_framed(&mut buf, msg).unwrap();

    let mut cursor = Cursor::new(&buf);
    let decoded = read_framed(&mut cursor).unwrap();
    assert_eq!(&decoded, msg);
}

#[test]
fn test_framed_oversized_write_rejected() {
    let msg = vec![0u8; MAX_MESSAGE_SIZE + 1];
    let mut buf = Vec::new();
    let result = write_framed(&mut buf, &msg);
    assert!(result.is_err());
    assert_eq!(result.unwrap_err().kind, ErrorKind::InvalidInput);
}

#[test]
fn oversized_messages_are_explained() {
    let msg = vec![0u8; MAX_MESSAGE_SIZE + 1];
    let mut buf = vec![7u8];
    let error = write_framed(&mut buf, &msg).unwrap_err();
    assert_eq!(error.message, "message too large: 16777217 bytes (max 16777216)");
    assert_eq!(buf, vec![7u8]);
    write_framed(&mut buf, &msg[1..]).unwrap();
    assert_eq!(buf.len(), 1 + LENGTH_PREFIX_SIZE + MAX_MESSAGE_SIZE);

    let error = framed_length(&[0xff, 0xff, 0xff, 0xff]).unwrap_err();
    assert_eq!(error.kind, ErrorKind::InvalidData);
    assert_eq!(error.message, "framed message too large: 4294967295 bytes (max 16777216)");
    assert_eq!(framed_length(&[0, 0, 0, 1]).unwrap(), MAX_MESSAGE_SIZE);
}

#[test]
fn test_framed_oversized_read_rejected() {
    // Craft a frame header claiming a size larger than MAX_MESSAGE_SIZE
    let fake_len = (MAX_MESSAGE_SIZE as u32 + 1).to_le_bytes();
    let fake_len = fake_len.to_vec();
    let mut cursor = Cursor::new(&fake_len);
    let result = read_framed(&mut cursor);
    assert!(result.is_err());
    assert_eq!(result.unwrap_err().kind, ErrorKind::InvalidData);
}

#[test]
fn framed_messages_follow_each_other() {
    let mut buf = Vec::new();
    write_framed(&mut buf, b"one").unwrap();
    write_framed(&mut buf, b"").unwrap();
    write_framed(&mut buf, b"three").unwrap();
    let mut cursor = Cursor::new(&buf);
    assert_eq!(read_framed(&mut cursor).unwrap(), b"one");
    assert_eq!(read_framed(&mut cursor).unwrap(), b"");
    assert_eq!(read_framed(&mut cursor).unwrap(), b"three");
    assert_eq!(read_framed(&mut cursor).unwrap_err().kind, ErrorKind::UnexpectedEof);
}

#[test]
fn what_follows_a_message_is_left_alone() {
    let mut buf = Vec::new();
    write_framed(&mut buf, b"first").unwrap();
    write_framed(&mut buf, b"second").unwrap();
    buf.extend_from_slice(b"rest");
    let mut cursor = Cursor::new(&buf);
    assert_eq!(read_framed(&mut cursor).unwrap(), b"first");
    assert_eq!(read_framed(&mut cursor).unwrap(), b"second");
    assert_eq!(&buf[buf.len() - 4..], b"rest");
    // The four bytes that are left are a length, with nothing behind it.
    assert!(read_framed(&mut cursor).is_err());
}

#[test]
fn truncated_messages_end_early() {
    let mut buf = Vec::new();
    write_framed(&mut buf, b"hello").unwrap();
    for len in 0..buf.len() {
        let mut cursor = Cursor::new(&buf[..len]);
        assert_eq!(read_framed(&mut cursor).unwrap_err().kind, ErrorKind::UnexpectedEof);
    }
}

#[test]
fn length_prefix_is_little_endian() {
    assert_eq!(length_prefix(0x0102_0304), vec![4, 3, 2, 1]);
    assert_eq!(prefixed_length(&[4, 3, 2, 1]), 0x0102_0304);
    assert_eq!(prefixed_length(&[0xff, 0xff, 0xff, 0xff]), u32::MAX);
}

#[test]
fn commands_take_ids() {
    let add = ProxyCommand::AddRoute { id: 0, destination: v4(10, 1, 0, 0), prefix_len: 16 };
    assert_eq!(
        add.with_id(7),
        ProxyCommand::AddRoute { id: 7, destination: v4(10, 1, 0, 0), prefix_len: 16 }
    );
    assert_eq!(add.with_id(7).id(), 7);
    let remove = ProxyCommand::RemoveRoute { id: 1, destination: v4(10, 1, 0, 0), prefix_len: 16 };
    assert_eq!(remove.with_id(9).id(), 9);
    assert_eq!(ProxyCommand::GetIfaceStats { id: 3 }.with_id(4).id(), 4);
}

#[test]
fn responses_tell_success_and_failure() {
    let ok = ProxyResponse::ok(3);
    assert_eq!(ok.id, 3);
    assert!(ok.error.is_none());
    let failed = ProxyResponse::error(4, String::from("no such device"));
    assert_eq!(failed.id, 4);
    assert_eq!(failed.error.unwrap(), "no such device");
}

#[test]
fn proxy_config_reads_well() {
    let config = ProxyConfig {
        tap_ip: v4(10, 0, 0, 1),
        tap_mac: [0x02, 0xab, 0x00, 0x0f, 0xff, 0x10],
        prefix_len: 24,
        mtu: 1500,
    };
    assert_eq!(
        config.to_text(),
        "tap_ip=10.0.0.1, tap_mac=02-ab-00-0f-ff-10, prefix_len=24, mtu=1500"
    );
    let config = ProxyConfig { tap_ip: ip("fd00::1"), ..config };
    assert_eq!(
        config.to_text(),
        "tap_ip=fd00::1, tap_mac=02-ab-00-0f-ff-10, prefix_len=24, mtu=1500"
    );
}

#[test]
fn mtu_has_a_default() {
    assert_eq!(mtu_or_default(None), 1500);
    assert_eq!(mtu_or_default(Some(4000)), 4000);
}

#[test]
fn default_client_is_in_the_subnet() {
    for (tap, prefix) in [(v4(10, 0, 0, 1), 24), (v4(10, 0, 0, 254), 24), (v4(10, 0, 0, 255), 16)] {
        assert!(validate_ip_in_subnet(default_client_ip(tap), tap, prefix));
    }
    let last = v4(10, 0, 0, 255);
    assert!(!validate_ip_in_subnet(default_client_ip(last), last, 24));
}
