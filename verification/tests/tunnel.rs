use std::future::Future;
use std::sync::Arc;
use std::task::{Context, Wake, Waker};
use tap_tunnel::addr::{IpAddr, Ipv4Addr, SocketAddr};
use tap_tunnel::error::{broken_pipe, invalid_data, invalid_input, unexpected_eof, Error, ErrorKind};
use tap_tunnel::protocol::{encode_control, encode_frame, ProxyCommand, ProxyResponse};
use tap_tunnel::relay::ProxyReply;
use tap_tunnel::socket::{
    deliver_packet, end_write, write_outcome, Owners, Peer, ReadBuffer, TcpListener, TcpStream,
    UdpSocket,
};
use tap_tunnel::stack::channels::{create_tcp_channels, create_udp_channels, SendOutcome};
use tap_tunnel::stats::Event;
use tap_tunnel::tunnel::{
    frame_received, iface_stats_result, ipc_frame, ipc_message, on_ipc_message,
    proxy_config_payload, route_result, spawn_failure, CloseFlag, HandshakeRead, HandshakeStep,
    IpcWriter, LengthReader, PendingResponses, ReaderStep, WriterEvent, WriterPhase,
};
use tap_tunnel::TunnelStats;
use tokio::sync::{mpsc, Notify};

fn at(port: u16) -> SocketAddr {
    SocketAddr::new(IpAddr::V4(Ipv4Addr::new(10, 0, 0, 1)), port)
}

fn data(bytes: &[u8]) -> HandshakeRead {
    HandshakeRead::Data { data: bytes.to_vec(), stderr: String::from("cannot access namespace") }
}

fn failure(step: HandshakeStep) -> Error {
    match step {
        HandshakeStep::Fail(error) => error,
        other => panic!("{:?}", other),
    }
}

#[test]
fn length_comes_in_pieces() {
    let mut reader = LengthReader::new();
    assert_eq!(reader.missing(), 4);
    assert!(matches!(reader.on_read(data(&[7])), HandshakeStep::GoOn));
    assert_eq!(reader.missing(), 3);
    let idle = HandshakeRead::Idle { past_deadline: false, exited: None };
    assert!(matches!(reader.on_read(idle), HandshakeStep::GoOn));
    assert!(matches!(reader.on_read(data(&[1, 0])), HandshakeStep::GoOn));
    match reader.on_read(data(&[0])) {
        HandshakeStep::Length(len) => assert_eq!(len, 0x107),
        other => panic!("{:?}", other),
    }
}

#[test]
fn failing_handshakes_are_explained() {
    let error = failure(LengthReader::new().on_read(data(&[])));
    assert_eq!(error.kind, ErrorKind::UnexpectedEof);
    assert_eq!(
        error.message,
        "proxy closed connection during handshake: cannot access namespace"
    );
    let silent = HandshakeRead::Data { data: vec![], stderr: String::new() };
    let error = failure(LengthReader::new().on_read(silent));
    assert_eq!(error.message, "proxy closed connection during handshake");

    let late = HandshakeRead::Idle {
        past_deadline: true,
        exited: Some((String::from("exit status: 1"), String::new())),
    };
    let error = failure(LengthReader::new().on_read(late));
    assert_eq!(error.kind, ErrorKind::TimedOut);
    assert_eq!(error.message, "timed out waiting for proxy handshake");

    let exited = |stderr: &str| HandshakeRead::Idle {
        past_deadline: false,
        exited: Some((String::from("exit status: 1"), String::from(stderr))),
    };
    let error = failure(LengthReader::new().on_read(exited("")));
    assert_eq!(error.kind, ErrorKind::Other);
    assert_eq!(error.message, "proxy exited with exit status: 1");
    let error = failure(LengthReader::new().on_read(exited("fatal")));
    assert_eq!(error.message, "proxy exited with exit status: 1: fatal");

    let failed = HandshakeRead::Failed(broken_pipe("gone"));
    let error = failure(LengthReader::new().on_read(failed));
    assert_eq!(error.kind, ErrorKind::BrokenPipe);
    assert_eq!(error.message, "gone");

    let error = spawn_failure(ErrorKind::NotFound, "/bin/proxy", "no such file");
    assert_eq!(error.kind, ErrorKind::NotFound);
    assert_eq!(error.message, "failed to spawn proxy binary '/bin/proxy': no such file");
}

#[test]
fn proxy_config_is_a_control_message() {
    assert_eq!(proxy_config_payload(&encode_control(b"{}")).unwrap(), b"{}");
    let error = proxy_config_payload(&encode_frame(b"x")).unwrap_err();
    assert_eq!(error.kind, ErrorKind::InvalidData);
    assert_eq!(error.message, "expected ProxyConfig, got frame");
}

#[test]
fn messages_go_behind_their_length() {
    assert_eq!(ipc_message(b"abc"), vec![3, 0, 0, 0, b'a', b'b', b'c']);
    assert_eq!(ipc_frame(b"abc"), vec![4, 0, 0, 0, 1, b'a', b'b', b'c']);
}

#[test]
fn frames_from_the_proxy_go_to_the_stack() {
    let mut stats = TunnelStats::default();
    let (mut tx, mut rx) = mpsc::channel(1);
    assert!(matches!(on_ipc_message(&encode_frame(b"one"), &mut tx, &mut stats), ReaderStep::GoOn));
    assert!(matches!(on_ipc_message(&encode_frame(b"two"), &mut tx, &mut stats), ReaderStep::GoOn));
    assert_eq!(stats.ipc_rx_frames, 2);
    assert_eq!(stats.ipc_rx_dropped, 1);
    assert_eq!(rx.try_recv().unwrap(), b"one");
    assert!(rx.try_recv().is_err());
    match on_ipc_message(&encode_control(b"{\"id\":1}"), &mut tx, &mut stats) {
        ReaderStep::Answer(payload) => assert_eq!(payload, b"{\"id\":1}"),
        other => panic!("{:?}", other),
    }
    assert!(matches!(on_ipc_message(&[9, 9], &mut tx, &mut stats), ReaderStep::GoOn));
    assert!(matches!(on_ipc_message(&[], &mut tx, &mut stats), ReaderStep::GoOn));
    assert_eq!(stats.ipc_rx_frames, 2);
    drop(rx);
    assert!(matches!(on_ipc_message(&encode_frame(b"x"), &mut tx, &mut stats), ReaderStep::Stop));
    assert_eq!(stats.ipc_rx_frames, 3);
    assert_eq!(stats.ipc_rx_dropped, 1);

    assert!(frame_received(&mut stats, SendOutcome::Sent));
    assert!(frame_received(&mut stats, SendOutcome::Full));
    assert!(!frame_received(&mut stats, SendOutcome::Closed));
    assert_eq!(stats.snapshot().ipc_rx_frames, 6);
    assert_eq!(stats.snapshot().ipc_rx_dropped, 2);
}

#[test]
fn writer_goes_round() {
    let mut stats = TunnelStats::default();
    let mut writer = IpcWriter::new();
    let mut step = |writer: &mut IpcWriter, event| {
        writer.on_event(event, &mut stats);
        writer.phase
    };
    let frame = WriterEvent::Frame { written: true };
    let control = WriterEvent::Control { written: true };
    assert_eq!(step(&mut writer, frame), WriterPhase::DrainingFrames);
    assert_eq!(step(&mut writer, frame), WriterPhase::DrainingFrames);
    assert_eq!(step(&mut writer, WriterEvent::Drained), WriterPhase::DrainingControl);
    assert_eq!(step(&mut writer, control), WriterPhase::DrainingControl);
    assert_eq!(step(&mut writer, WriterEvent::Drained), WriterPhase::Flushing);
    assert_eq!(step(&mut writer, WriterEvent::Flushed { written: true }), WriterPhase::Waiting);
    assert_eq!(step(&mut writer, control), WriterPhase::DrainingFrames);
    assert!(!writer.dead);
    let lost = WriterEvent::Frame { written: false };
    assert_eq!(step(&mut writer, lost), WriterPhase::DrainingControl);
    assert!(writer.dead);
    let lost = WriterEvent::Control { written: false };
    assert_eq!(step(&mut writer, lost), WriterPhase::Flushing);
    assert_eq!(step(&mut writer, WriterEvent::Flushed { written: false }), WriterPhase::Done);
    assert_eq!(stats.ipc_tx_frames, 2);
    assert_eq!(stats.ipc_tx_errors, 1);
}

#[test]
fn writer_ends() {
    let mut stats = TunnelStats::default();
    for event in [
        WriterEvent::Frame { written: false },
        WriterEvent::Control { written: false },
        WriterEvent::Closed,
    ] {
        let mut writer = IpcWriter::new();
        writer.on_event(event, &mut stats);
        assert_eq!(writer.phase, WriterPhase::Done);
        assert_eq!(writer.dead, event != WriterEvent::Closed);
    }
    assert_eq!(stats.ipc_tx_errors, 1);
}

#[test]
fn answers_find_their_askers() {
    let mut pending: PendingResponses<&str> = PendingResponses::new();
    let ask = ProxyCommand::GetIfaceStats { id: 0 };
    let first = pending.register(ask, "first");
    let second = pending.register(ask, "second");
    assert_eq!((first.id(), second.id()), (1, 2));
    assert_eq!(pending.resolve(2), Some("second"));
    assert_eq!(pending.resolve(2), None);
    assert_eq!(pending.resolve(7), None);
    assert_eq!(pending.resolve(1), Some("first"));
    pending.next_id = u64::MAX;
    assert_eq!(pending.register(ask, "last").id(), u64::MAX);
    assert_eq!(pending.register(ask, "again").id(), 0);
}

#[test]
fn replies_become_results() {
    assert!(route_result(ProxyReply::Status(ProxyResponse::ok(1))).is_ok());
    let failed = || ProxyReply::Status(ProxyResponse::error(1, String::from("no route")));
    let error = route_result(failed()).unwrap_err();
    assert_eq!(error.kind, ErrorKind::Other);
    assert_eq!(error.message, "no route");
    let stats = || ProxyReply::IfaceStats { id: 1, interfaces: vec![] };
    assert_eq!(route_result(stats()).unwrap_err().message, "unexpected response");
    assert!(iface_stats_result(stats()).unwrap().is_empty());
    assert_eq!(iface_stats_result(failed()).unwrap_err().message, "no route");
    let ok = ProxyReply::Status(ProxyResponse::ok(1));
    assert_eq!(iface_stats_result(ok).unwrap_err().message, "unexpected response");
}

#[test]
fn closing_happens_once() {
    let mut flag = CloseFlag::new();
    assert!(flag.close());
    assert!(!flag.close());
    assert!(!flag.close());
}

#[test]
fn statistics_are_counted_and_written() {
    let stats = TunnelStats::new_shared();
    assert_eq!(
        stats.snapshot().to_text(),
        "IPC:    rx=0 rx_drop=0 tx=0 tx_err=0\nDevice: rx=0 tx=0 tx_drop=0\n\
         UDP:    tx=0 tx_fail=0 rx=0 rx_drop=0"
    );
    let stats = TunnelStats {
        ipc_rx_frames: 1,
        ipc_rx_dropped: 2,
        ipc_tx_frames: 3,
        ipc_tx_errors: 4,
        device_rx_frames: 5,
        device_tx_frames: 6,
        device_tx_dropped: 7,
        udp_tx_packets: 8,
        udp_tx_failed: 9,
        udp_rx_packets: 10,
        udp_rx_dropped: u64::MAX,
    };
    assert_eq!(
        stats.snapshot().to_text(),
        "IPC:    rx=1 rx_drop=2 tx=3 tx_err=4\nDevice: rx=5 tx=6 tx_drop=7\n\
         UDP:    tx=8 tx_fail=9 rx=10 rx_drop=18446744073709551615"
    );
}

#[test]
fn every_event_moves_its_counter() {
    let mut stats = TunnelStats::default();
    stats.record(Event::DeviceReceived);
    stats.frame_transmitted(SendOutcome::Sent);
    stats.frame_transmitted(SendOutcome::Sent);
    stats.frame_transmitted(SendOutcome::Full);
    stats.frame_transmitted(SendOutcome::Closed);
    for _ in 0..4 {
        stats.record(Event::UdpReceived);
    }
    stats.record(Event::UdpDropped);
    stats.record(Event::UdpSent);
    stats.record(Event::UdpSent);
    stats.record(Event::UdpRefused);
    assert_eq!(
        stats.snapshot().to_text(),
        "IPC:    rx=0 rx_drop=0 tx=0 tx_err=0\nDevice: rx=1 tx=2 tx_drop=1\n\
         UDP:    tx=2 tx_fail=1 rx=4 rx_drop=1"
    );
}

#[test]
fn reads_keep_what_does_not_fit() {
    let mut buffer = ReadBuffer::new();
    let mut out = [0u8; 4];
    assert_eq!(buffer.serve(&mut out), None);
    assert_eq!(buffer.deliver(Some(b"abcdefghij".to_vec()), &mut out), 4);
    assert_eq!(&out, b"abcd");
    assert_eq!(buffer.serve(&mut out), Some(4));
    assert_eq!(&out, b"efgh");
    assert_eq!(buffer.serve(&mut out), Some(2));
    assert_eq!(&out, b"ijgh");
    assert_eq!(buffer.serve(&mut out), None);
    assert_eq!(buffer.deliver(Some(b"xy".to_vec()), &mut out), 2);
    assert_eq!(buffer.serve(&mut out), None);
    assert_eq!(buffer.deliver(None, &mut out), 0);
    assert_eq!(buffer.deliver(Some(b"z".to_vec()), &mut []), 0);
    assert_eq!(buffer.serve(&mut out), Some(1));
}

#[test]
fn repeated_reads_give_back_the_stream() {
    let chunks: [&[u8]; 3] = [b"hello ", b"wide", b" world"];
    for size in 1..20 {
        let mut waiting = chunks.iter();
        let mut buffer = ReadBuffer::new();
        let mut returned = Vec::new();
        loop {
            let mut out = vec![b'.'; size];
            let n = match buffer.serve(&mut out) {
                Some(n) => n,
                None => buffer.deliver(waiting.next().map(|chunk| chunk.to_vec()), &mut out),
            };
            assert!(n <= size);
            assert!(out[n..].iter().all(|byte| *byte == b'.'));
            if n == 0 {
                break;
            }
            returned.extend_from_slice(&out[..n]);
        }
        assert_eq!(returned, b"hello wide world");
    }
}

struct Ignore;

impl Wake for Ignore {
    fn wake(self: Arc<Self>) {}
}

/// Whether a signal is waiting. It is taken.
fn signalled(notify: &Notify) -> bool {
    let waker = Waker::from(Arc::new(Ignore));
    let mut waiting = Box::pin(notify.notified());
    waiting.as_mut().poll(&mut Context::from_waker(&waker)).is_ready()
}

#[test]
fn writers_signal_what_the_channel_took() {
    let notify = Arc::new(Notify::new());
    let (channels, state) = create_tcp_channels(Arc::clone(&notify));
    let mut stream = TcpStream::from_channels(some_handle(), (), at(1), at(2), channels);
    assert!(!signalled(&notify));
    stream.poll_write(b"hello").result.unwrap();
    assert!(signalled(&notify));
    assert_eq!(end_write(SendOutcome::Sent, 3, &notify).result.unwrap(), 3);
    assert!(signalled(&notify));
    assert!(end_write(SendOutcome::Full, 3, &notify).signal.is_none());
    assert!(!signalled(&notify));
    drop(state);
    assert!(stream.poll_write(b"more").result.is_err());
    assert!(!signalled(&notify));
}

#[test]
fn writes_end_as_the_channel_says() {
    assert_eq!(write_outcome(SendOutcome::Sent, 5).unwrap(), 5);
    let error = write_outcome(SendOutcome::Full, 5).unwrap_err();
    assert_eq!(error.kind, ErrorKind::WouldBlock);
    assert_eq!(error.message, "channel full");
    let error = write_outcome(SendOutcome::Closed, 5).unwrap_err();
    assert_eq!(error.kind, ErrorKind::BrokenPipe);
    assert_eq!(error.message, "stack task gone");
}

fn some_handle() -> smoltcp::iface::SocketHandle {
    smoltcp::iface::SocketHandle::default()
}

#[test]
fn streams_write_to_their_channel() {
    let (channels, mut state) = create_tcp_channels(Arc::new(Notify::new()));
    let mut stream = TcpStream::from_channels(some_handle(), "commands", at(1), at(2), channels);
    assert_eq!(stream.local_addr(), at(1));
    assert_eq!(stream.peer_addr(), at(2));
    let written = stream.poll_write(b"hello");
    assert_eq!(written.result.unwrap(), 5);
    assert!(written.signal.is_some());
    assert_eq!(state.write_rx.try_recv().unwrap(), b"hello");
    for _ in 0..8 {
        stream.poll_write(b"x").result.unwrap();
    }
    let written = stream.poll_write(b"x");
    assert_eq!(written.result.unwrap_err().kind, ErrorKind::WouldBlock);
    assert!(written.signal.is_none());
    drop(state);
    let written = stream.poll_write(b"x");
    assert_eq!(written.result.unwrap_err().kind, ErrorKind::BrokenPipe);
    assert!(written.signal.is_none());
}

#[test]
fn split_streams_keep_what_was_received() {
    let (channels, mut state) = create_tcp_channels(Arc::new(Notify::new()));
    let mut stream = TcpStream::from_channels(some_handle(), (), at(1), at(2), channels);
    let mut out = [0u8; 1];
    stream.read_buf.deliver(Some(b"abc".to_vec()), &mut out);
    let (inner, mut read, mut write) = stream.into_split();
    assert_eq!(inner.local_addr, at(1));
    assert_eq!(inner.peer_addr, at(2));
    let mut out = [0u8; 2];
    assert_eq!(read.read_buf.serve(&mut out), Some(2));
    assert_eq!(&out, b"bc");
    state.read_tx.as_ref().unwrap().try_send(b"more".to_vec()).unwrap();
    assert_eq!(read.read_rx.try_recv().unwrap(), b"more");
    assert_eq!(write.poll_write(b"hi").result.unwrap(), 2);
    assert_eq!(state.write_rx.try_recv().unwrap(), b"hi");
    let mut owners = inner.owners;
    assert!(!owners.drop_one());
    assert!(owners.drop_one());
    assert!(!owners.drop_one());
}

#[test]
fn whole_streams_close_with_their_only_owner() {
    let mut owners = Owners::new();
    assert!(owners.drop_one());
    let mut owners = Owners::new();
    owners.split();
    assert!(!owners.drop_one());
    assert!(owners.drop_one());
}

#[test]
fn packets_are_delivered_whole_or_cut() {
    let (channels, mut state) = create_udp_channels(Arc::new(Notify::new()));
    let mut socket = UdpSocket::from_channels(some_handle(), (), at(5), channels);
    assert_eq!(socket.local_addr(), at(5));
    state.read_tx.as_ref().unwrap().try_send((b"packet".to_vec(), at(6))).unwrap();
    socket.write_tx.try_send((b"out".to_vec(), at(7))).unwrap();
    assert_eq!(state.write_rx.try_recv().unwrap(), (b"out".to_vec(), at(7)));
    let mut out = [0u8; 4];
    let packet = socket.read_rx.try_recv().ok();
    assert_eq!(deliver_packet(packet, &mut out).unwrap(), (4, at(6)));
    assert_eq!(&out, b"pack");
    assert_eq!(deliver_packet(Some((b"x".to_vec(), at(8))), &mut out).unwrap(), (1, at(8)));
    assert_eq!(&out, b"xack");
    let error = deliver_packet(None, &mut out).unwrap_err();
    assert_eq!(error.kind, ErrorKind::BrokenPipe);
    assert_eq!(error.message, "socket closed");
}

#[test]
fn connected_datagram_sockets_hear_their_peer() {
    let mut peer = Peer::new();
    let error = peer.peer_addr().unwrap_err();
    assert_eq!(error.kind, ErrorKind::NotConnected);
    assert_eq!(error.message, "socket not connected");
    assert!(!peer.hears(at(1)));
    peer.connect(at(1));
    assert_eq!(peer.peer_addr().unwrap(), at(1));
    assert!(peer.hears(at(1)));
    assert!(!peer.hears(at(2)));
}

#[test]
fn listeners_know_their_address() {
    let listener = TcpListener::from_handle(some_handle(), at(80), ());
    assert_eq!(listener.local_addr(), at(80));
}

#[test]
fn errors_have_kinds() {
    assert_eq!(broken_pipe("a").kind, ErrorKind::BrokenPipe);
    assert_eq!(invalid_input("a").kind, ErrorKind::InvalidInput);
    assert_eq!(invalid_data("a").kind, ErrorKind::InvalidData);
    assert_eq!(unexpected_eof("a").kind, ErrorKind::UnexpectedEof);
    assert_eq!(Error::new(ErrorKind::Other, "text").message, "text");
}
