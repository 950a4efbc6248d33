use smoltcp::iface::{Config, Interface, PollIngressSingleResult, PollResult};
use smoltcp::phy::{Device, DeviceCapabilities, Medium, RxToken, TxToken};
use smoltcp::socket::udp;
use smoltcp::time::Instant;
use smoltcp::wire::EthernetAddress;
use std::collections::VecDeque;
use tap_tunnel::addr::{IpAddr, Ipv4Addr, Ipv6Addr, SocketAddr};
use tap_tunnel::error::ErrorKind;
use tap_tunnel::stack::channels::{create_tcp_channels, Pull};
use tap_tunnel::stack::data::{flush_pending, take_packet, take_received, write_pulled, write_pulled_packet};
use tap_tunnel::stack::handlers::is_config_ok;
use tap_tunnel::stack::net::{is_assignable, is_unicast};
use tap_tunnel::stack::rounds::{clamp_poll_delay, Ingress, IngressBatch, Wakeup};
use tap_tunnel::stack::{
    Bound, Completion, Connected, EphemeralPorts, Listening, Reply, Stack, StackCommand,
    StackConfig, EPHEMERAL_PORT_COUNT,
};
use tap_tunnel::TunnelStats;
use tokio::sync::mpsc::error::TryRecvError;

struct Wire {
    rx: VecDeque<Vec<u8>>,
    tx: Vec<Vec<u8>>,
}

struct Received(Vec<u8>);

struct Sending<'a>(&'a mut Vec<Vec<u8>>);

impl RxToken for Received {
    fn consume<R, F>(self, f: F) -> R
    where
        F: FnOnce(&[u8]) -> R,
    {
        f(&self.0)
    }
}

impl<'a> TxToken for Sending<'a> {
    fn consume<R, F>(self, len: usize, f: F) -> R
    where
        F: FnOnce(&mut [u8]) -> R,
    {
        let mut frame = vec![0u8; len];
        let result = f(&mut frame);
        self.0.push(frame);
        result
    }
}

impl Device for Wire {
    type RxToken<'a> = Received;
    type TxToken<'a> = Sending<'a>;

    fn capabilities(&self) -> DeviceCapabilities {
        let mut caps = DeviceCapabilities::default();
        caps.medium = Medium::Ethernet;
        caps.max_transmission_unit = 1514;
        caps
    }

    fn receive(&mut self, _: Instant) -> Option<(Received, Sending<'_>)> {
        let frame = self.rx.pop_front()?;
        Some((Received(frame), Sending(&mut self.tx)))
    }

    fn transmit(&mut self, _: Instant) -> Option<Sending<'_>> {
        Some(Sending(&mut self.tx))
    }
}

struct Node {
    stack: Stack<u32>,
    wire: Wire,
    ports: EphemeralPorts,
    stats: TunnelStats,
    completions: Vec<Completion<u32>>,
}

fn v4(a: u8, b: u8, c: u8, d: u8) -> IpAddr {
    IpAddr::V4(Ipv4Addr::new(a, b, c, d))
}

fn at(ip: IpAddr, port: u16) -> SocketAddr {
    SocketAddr::new(ip, port)
}

const LEFT: (u8, u8, u8, u8) = (10, 0, 0, 1);
const RIGHT: (u8, u8, u8, u8) = (10, 0, 0, 2);

fn left_ip() -> IpAddr {
    v4(LEFT.0, LEFT.1, LEFT.2, LEFT.3)
}

fn right_ip() -> IpAddr {
    v4(RIGHT.0, RIGHT.1, RIGHT.2, RIGHT.3)
}

impl Node {
    fn new(mac: u8, ip: IpAddr, gateway: IpAddr) -> Node {
        let mut wire = Wire { rx: VecDeque::new(), tx: Vec::new() };
        let mac = [2, 0, 0, 0, 0, mac];
        let iface = Interface::new(
            Config::new(EthernetAddress(mac).into()),
            &mut wire,
            Instant::from_micros(0),
        );
        let config = StackConfig { mac, ip, prefix_len: 24, gateway };
        let stack = Stack::new(iface, config).unwrap();
        Node {
            stack,
            wire,
            ports: EphemeralPorts::new(),
            stats: TunnelStats::default(),
            completions: Vec::new(),
        }
    }

    fn pair() -> (Node, Node) {
        (Node::new(1, left_ip(), right_ip()), Node::new(2, right_ip(), left_ip()))
    }

    fn command(&mut self, command: StackCommand<u32>) -> Reply<u32> {
        assert!(self.stack.can_handle(&command));
        self.stack.handle_command(command, &mut self.ports)
    }

    fn round(&mut self, now: i64) {
        let interval = self.stack.poll_interval(now);
        assert!(interval <= 1000);
        match self.stack.begin_round(Wakeup::Timeout, &mut self.ports, &mut self.stats) {
            Some(Reply::Nothing) => {}
            _ => panic!("a timeout wants no answer"),
        }
        let now = Instant::from_micros(now);
        let mut batch = IngressBatch::new();
        while batch.wants_more() {
            let result =
                match self.stack.iface.poll_ingress_single(now, &mut self.wire, &mut self.stack.sockets) {
                    PollIngressSingleResult::None => Ingress::Nothing,
                    PollIngressSingleResult::PacketProcessed => Ingress::PacketProcessed,
                    PollIngressSingleResult::SocketStateChanged => Ingress::SocketStateChanged,
                };
            batch.note(result);
        }
        let egress = self.stack.iface.poll_egress(now, &mut self.wire, &mut self.stack.sockets);
        let changed = batch.changed || matches!(egress, PollResult::SocketStateChanged);
        let (completions, stop) = self.stack.finish_round(changed, false, &mut self.stats);
        assert!(!stop);
        self.completions.extend(completions);
    }

    fn connected(&mut self) -> Connected {
        assert_eq!(self.completions.len(), 1);
        self.completions.pop().unwrap().result.ok().unwrap()
    }

    fn listen(&mut self, addr: SocketAddr, backlog: usize) -> Listening {
        match self.command(StackCommand::TcpListen { addr, backlog }) {
            Reply::Listening(result) => result.unwrap(),
            _ => panic!("expected a listener"),
        }
    }

    fn bind(&mut self, addr: SocketAddr) -> Bound {
        match self.command(StackCommand::UdpBind { addr }) {
            Reply::Bound(Ok(bound)) => bound,
            _ => panic!("expected a bound socket"),
        }
    }

    fn ips(&mut self) -> Vec<(IpAddr, u8)> {
        match self.command(StackCommand::GetIps) {
            Reply::Ips(ips) => ips,
            _ => panic!("expected addresses"),
        }
    }
}

fn run(left: &mut Node, right: &mut Node, now: &mut i64, rounds: usize) {
    for _ in 0..rounds {
        *now += 1000;
        left.round(*now);
        right.round(*now);
        right.wire.rx.extend(left.wire.tx.drain(..));
        left.wire.rx.extend(right.wire.tx.drain(..));
    }
}

/// A connection from the left node to the right one.
fn connect(left: &mut Node, right: &mut Node, now: &mut i64, port: u16) -> (Connected, Connected) {
    let listening = right.listen(at(right_ip(), port), 2);
    match right.command(StackCommand::TcpAccept { handle: listening.handle, response: 1 }) {
        Reply::Nothing => {}
        _ => panic!("nobody has connected yet"),
    }
    match left.command(StackCommand::TcpConnect {
        local_ip: None,
        addr: at(right_ip(), port),
        response: 2,
    }) {
        Reply::Nothing => {}
        _ => panic!("the connection takes a while"),
    }
    run(left, right, now, 50);
    assert_eq!(left.completions[0].response, 2);
    assert_eq!(right.completions[0].response, 1);
    (left.connected(), right.connected())
}

#[test]
fn tcp_connects_and_exchanges() {
    let (mut left, mut right) = Node::pair();
    let mut now = 0;
    let (mut client, mut server) = connect(&mut left, &mut right, &mut now, 8080);

    assert_eq!(client.local, at(left_ip(), 49152));
    assert_eq!(client.peer, at(right_ip(), 8080));
    assert_eq!(server.local, at(right_ip(), 8080));
    assert_eq!(server.peer, at(left_ip(), 49152));

    client.channels.write_tx.try_send(b"hello ".to_vec()).unwrap();
    client.channels.write_tx.try_send(b"server".to_vec()).unwrap();
    server.channels.write_tx.try_send(b"hello client".to_vec()).unwrap();
    run(&mut left, &mut right, &mut now, 50);

    let mut got = Vec::new();
    while let Ok(chunk) = server.channels.read_rx.try_recv() {
        got.extend(chunk);
    }
    assert_eq!(got, b"hello server");
    assert_eq!(client.channels.read_rx.try_recv().unwrap(), b"hello client");
}

#[test]
fn tcp_transfers_more_than_the_buffers_hold() {
    let (mut left, mut right) = Node::pair();
    let mut now = 0;
    let (client, mut server) = connect(&mut left, &mut right, &mut now, 8081);
    let data: Vec<u8> = (0..300_000u32).map(|i| (i % 251) as u8).collect();
    let mut chunks: VecDeque<Vec<u8>> = data.chunks(100_000).map(|c| c.to_vec()).collect();
    let mut got = Vec::new();
    for _ in 0..2000 {
        if let Some(chunk) = chunks.pop_front() {
            if client.channels.write_tx.try_send(chunk.clone()).is_err() {
                chunks.push_front(chunk);
            }
        }
        run(&mut left, &mut right, &mut now, 1);
        while let Ok(chunk) = server.channels.read_rx.try_recv() {
            assert!(!chunk.is_empty() && chunk.len() <= 65535);
            got.extend(chunk);
        }
    }
    assert_eq!(got.len(), data.len());
    assert!(got == data);
}

#[test]
fn unread_data_waits_for_the_reader() {
    let (mut left, mut right) = Node::pair();
    let mut now = 0;
    let (client, mut server) = connect(&mut left, &mut right, &mut now, 8082);
    let mut sent = Vec::new();
    for i in 0..20u8 {
        let chunk = vec![i; 100];
        sent.extend_from_slice(&chunk);
        client.channels.write_tx.try_send(chunk).unwrap();
        run(&mut left, &mut right, &mut now, 10);
    }
    let mut got = Vec::new();
    for _ in 0..20 {
        while let Ok(chunk) = server.channels.read_rx.try_recv() {
            got.extend(chunk);
        }
        run(&mut left, &mut right, &mut now, 5);
    }
    assert!(got == sent);
}

#[test]
fn nobody_listening_refuses_the_connection() {
    let (mut left, mut right) = Node::pair();
    let mut now = 0;
    left.command(StackCommand::TcpConnect {
        local_ip: None,
        addr: at(right_ip(), 9),
        response: 5,
    });
    run(&mut left, &mut right, &mut now, 50);
    let completion = left.completions.pop().unwrap();
    assert_eq!(completion.response, 5);
    let error = completion.result.err().unwrap();
    assert_eq!(error.kind, ErrorKind::ConnectionRefused);
    assert_eq!(error.message, "connection failed");
    assert!(left.completions.is_empty());
}

#[test]
fn connecting_nowhere_fails_at_once() {
    let (mut left, _) = Node::pair();
    for addr in [at(right_ip(), 0), at(v4(0, 0, 0, 0), 80)] {
        match left.command(StackCommand::TcpConnect { local_ip: None, addr, response: 6 }) {
            Reply::Tcp(completion) => {
                assert_eq!(completion.response, 6);
                let error = completion.result.err().unwrap();
                assert_eq!(error.kind, ErrorKind::Other);
                assert_eq!(error.message, "connect failed: unaddressable destination");
            }
            _ => panic!("expected a refusal"),
        }
    }
    let v6 = IpAddr::V6(Ipv6Addr::new(0xfd00, 0, 0, 0, 0, 0, 0, 1));
    match left.command(StackCommand::TcpConnect {
        local_ip: Some(v6),
        addr: at(right_ip(), 80),
        response: 7,
    }) {
        Reply::Tcp(completion) => assert!(completion.result.is_err()),
        _ => panic!("families do not mix"),
    }
}

#[test]
fn connection_comes_from_the_given_address() {
    let (mut left, mut right) = Node::pair();
    let mut now = 0;
    let extra = v4(10, 0, 0, 77);
    match left.command(StackCommand::AddIp { ip: extra, prefix_len: 24 }) {
        Reply::Ip(result) => result.unwrap(),
        _ => panic!("expected an answer"),
    }
    let listening = right.listen(at(v4(0, 0, 0, 0), 8083), 1);
    left.command(StackCommand::TcpConnect {
        local_ip: Some(extra),
        addr: at(right_ip(), 8083),
        response: 1,
    });
    run(&mut left, &mut right, &mut now, 50);
    assert_eq!(left.connected().local, at(extra, 49152));
    match right.command(StackCommand::TcpAccept { handle: listening.handle, response: 2 }) {
        Reply::Tcp(completion) => {
            assert_eq!(completion.response, 2);
            let server = completion.result.ok().unwrap();
            assert_eq!(server.peer, at(extra, 49152));
            assert_eq!(server.local, at(right_ip(), 8083));
        }
        _ => panic!("the connection is there already"),
    }
}

#[test]
fn listening_needs_a_free_port() {
    let (mut left, _) = Node::pair();
    let listen = |left: &mut Node, addr| match left.command(StackCommand::TcpListen { addr, backlog: 1 }) {
        Reply::Listening(result) => result,
        _ => panic!("expected an answer"),
    };
    let error = listen(&mut left, at(left_ip(), 0)).unwrap_err();
    assert_eq!(error.kind, ErrorKind::InvalidInput);
    assert_eq!(error.message, "cannot listen on port 0");
    let first = listen(&mut left, at(left_ip(), 80)).unwrap();
    assert_eq!(first.addr, at(left_ip(), 80));
    let error = listen(&mut left, at(v4(0, 0, 0, 0), 80)).unwrap_err();
    assert_eq!(error.kind, ErrorKind::AddrInUse);
    assert_eq!(error.message, "address already in use");
    listen(&mut left, at(left_ip(), 81)).unwrap();

    left.command(StackCommand::TcpListenerClose { handle: first.handle });
    listen(&mut left, at(left_ip(), 80)).unwrap();
}

#[test]
fn backlog_is_at_least_one_and_stays() {
    let (mut left, mut right) = Node::pair();
    let mut now = 0;
    let listening = right.listen(at(right_ip(), 8084), 0);
    let listener = &right.stack.listeners.get(listening.handle).unwrap().listening_handles;
    assert_eq!(listener.len(), 1);
    assert_eq!(listener[0], listening.handle);
    for i in 0..3 {
        left.command(StackCommand::TcpConnect {
            local_ip: None,
            addr: at(right_ip(), 8084),
            response: i,
        });
        run(&mut left, &mut right, &mut now, 50);
        match right.command(StackCommand::TcpAccept { handle: listening.handle, response: 9 }) {
            Reply::Tcp(completion) => {
                let server = completion.result.ok().unwrap();
                assert_eq!(server.peer, at(left_ip(), 49152 + i as u16));
            }
            _ => panic!("the connection is there already"),
        }
        let state = right.stack.listeners.get(listening.handle).unwrap();
        assert_eq!(state.listening_handles.len(), 1);
    }
    assert_eq!(left.completions.len(), 3);
}

#[test]
fn accepting_needs_a_listener() {
    let (mut left, _) = Node::pair();
    let udp = left.bind(at(left_ip(), 5000));
    match left.command(StackCommand::TcpAccept { handle: udp.handle, response: 3 }) {
        Reply::Tcp(completion) => {
            assert_eq!(completion.response, 3);
            let error = completion.result.err().unwrap();
            assert_eq!(error.kind, ErrorKind::InvalidInput);
            assert_eq!(error.message, "not a listener handle");
        }
        _ => panic!("expected a refusal"),
    }
}

#[test]
fn closing_a_listener_spares_its_connection() {
    let (mut left, mut right) = Node::pair();
    let mut now = 0;
    let (client, mut server) = connect(&mut left, &mut right, &mut now, 8085);
    let handle = right.stack.listeners.keys()[0];
    right.command(StackCommand::TcpListenerClose { handle });
    client.channels.write_tx.try_send(b"still here".to_vec()).unwrap();
    run(&mut left, &mut right, &mut now, 50);
    assert_eq!(server.channels.read_rx.try_recv().unwrap(), b"still here");
}

#[test]
fn closed_socket_ends_the_stream() {
    let (mut left, mut right) = Node::pair();
    let mut now = 0;
    let (client, mut server) = connect(&mut left, &mut right, &mut now, 8086);
    client.channels.write_tx.try_send(b"bye".to_vec()).unwrap();
    run(&mut left, &mut right, &mut now, 20);
    assert!(left.stack.holds_tcp(client.handle));
    assert!(!left.stack.holds_udp(client.handle));
    left.command(StackCommand::TcpClose { handle: client.handle });
    run(&mut left, &mut right, &mut now, 20);
    assert_eq!(server.channels.read_rx.try_recv().unwrap(), b"bye");
    // The stack has dropped its side, so that writing fails.
    assert!(client.channels.write_tx.try_send(b"more".to_vec()).is_err());
}

#[test]
fn reader_finds_the_end_after_all_data() {
    let (mut left, mut right) = Node::pair();
    let mut now = 0;
    let (client, mut server) = connect(&mut left, &mut right, &mut now, 8088);
    run(&mut left, &mut right, &mut now, 20);
    assert_eq!(server.channels.read_rx.try_recv(), Err(TryRecvError::Empty));
    for i in 0..3 {
        client.channels.write_tx.try_send(vec![i; 1000]).unwrap();
    }
    run(&mut left, &mut right, &mut now, 40);
    left.command(StackCommand::TcpClose { handle: client.handle });
    let mut received = Vec::new();
    let mut ended = false;
    for _ in 0..20 {
        run(&mut left, &mut right, &mut now, 5);
        loop {
            match server.channels.read_rx.try_recv() {
                Ok(chunk) => {
                    assert!(!ended && !chunk.is_empty());
                    received.extend(chunk);
                }
                Err(TryRecvError::Empty) => break,
                Err(TryRecvError::Disconnected) => {
                    ended = true;
                    break;
                }
            }
        }
    }
    assert!(ended);
    let mut expected = vec![0u8; 1000];
    expected.extend(vec![1u8; 1000]);
    expected.extend(vec![2u8; 1000]);
    assert_eq!(received, expected);
    // Only the far end has closed: the other direction is still open.
    server.channels.write_tx.try_send(b"answer".to_vec()).unwrap();
    let socket = right.stack.sockets.get::<smoltcp::socket::tcp::Socket>(server.handle);
    assert!(socket.may_send());
}

#[test]
fn dropped_writer_closes_the_socket() {
    let (mut left, mut right) = Node::pair();
    let mut now = 0;
    let (client, mut server) = connect(&mut left, &mut right, &mut now, 8087);
    let handle = client.handle;
    client.channels.write_tx.try_send(b"last words".to_vec()).unwrap();
    drop(client);
    run(&mut left, &mut right, &mut now, 50);
    assert_eq!(server.channels.read_rx.try_recv().unwrap(), b"last words");
    let socket = left.stack.sockets.get::<smoltcp::socket::tcp::Socket>(handle);
    assert!(!socket.may_send());
}

#[test]
fn udp_sends_and_receives() {
    let (mut left, mut right) = Node::pair();
    let mut now = 0;
    let mut a = left.bind(at(left_ip(), 0));
    assert_eq!(a.addr, at(left_ip(), 49152));
    let mut b = right.bind(at(v4(0, 0, 0, 0), 5000));
    assert_eq!(b.addr, at(v4(0, 0, 0, 0), 5000));
    let to = at(right_ip(), 5000);
    a.channels.write_tx.try_send((b"ping".to_vec(), to)).unwrap();
    a.channels.write_tx.try_send((b"".to_vec(), to)).unwrap();
    a.channels.write_tx.try_send((b"lost".to_vec(), at(v4(0, 0, 0, 0), 1))).unwrap();
    a.channels.write_tx.try_send((vec![7u8; 1400], to)).unwrap();
    run(&mut left, &mut right, &mut now, 30);
    assert_eq!(b.channels.read_rx.try_recv().unwrap(), (b"ping".to_vec(), a.addr));
    assert_eq!(b.channels.read_rx.try_recv().unwrap(), (b"".to_vec(), a.addr));
    assert_eq!(b.channels.read_rx.try_recv().unwrap(), (vec![7u8; 1400], a.addr));
    assert!(b.channels.read_rx.try_recv().is_err());
    assert_eq!((left.stats.udp_tx_packets, left.stats.udp_tx_failed), (4, 1));
    assert_eq!((right.stats.udp_rx_packets, right.stats.udp_rx_dropped), (3, 0));
    assert_eq!((left.stats.udp_rx_packets, right.stats.udp_tx_packets), (0, 0));

    b.channels.write_tx.try_send((b"pong".to_vec(), a.addr)).unwrap();
    run(&mut left, &mut right, &mut now, 30);
    assert_eq!(a.channels.read_rx.try_recv().unwrap(), (b"pong".to_vec(), to));

    assert!(left.stack.holds_udp(a.handle));
    left.command(StackCommand::UdpClose { handle: a.handle });
    b.channels.write_tx.try_send((b"gone".to_vec(), a.addr)).unwrap();
    run(&mut left, &mut right, &mut now, 30);
    assert!(a.channels.read_rx.try_recv().is_err());
    assert!(!left.stack.sockets.get::<smoltcp::socket::udp::Socket>(a.handle).is_open());
}

#[test]
fn packets_wait_for_a_place_in_the_channel() {
    let (mut left, mut right) = Node::pair();
    let mut now = 0;
    let a = left.bind(at(left_ip(), 4000));
    let mut b = right.bind(at(right_ip(), 5000));
    for i in 0..40u8 {
        a.channels.write_tx.try_send((vec![i], at(right_ip(), 5000))).unwrap();
        run(&mut left, &mut right, &mut now, 10);
    }
    assert_eq!(right.stats.udp_rx_packets, 32);
    for i in 0..8u8 {
        assert_eq!(b.channels.read_rx.try_recv().unwrap(), (vec![i], a.addr));
    }
    run(&mut left, &mut right, &mut now, 2);
    assert_eq!((right.stats.udp_rx_packets, right.stats.udp_rx_dropped), (40, 0));
    for i in 8..40u8 {
        assert_eq!(b.channels.read_rx.try_recv().unwrap(), (vec![i], a.addr));
    }
    assert_eq!(b.channels.read_rx.try_recv(), Err(TryRecvError::Empty));
}

#[test]
fn chunks_wait_for_a_place_in_the_channel() {
    let (mut left, mut right) = Node::pair();
    let mut now = 0;
    let (client, mut server) = connect(&mut left, &mut right, &mut now, 8089);
    for i in 0..20u8 {
        client.channels.write_tx.try_send(vec![i]).unwrap();
        run(&mut left, &mut right, &mut now, 30);
    }
    let mut received = Vec::new();
    for _ in 0..20 {
        while let Ok(chunk) = server.channels.read_rx.try_recv() {
            received.extend(chunk);
        }
        run(&mut left, &mut right, &mut now, 5);
    }
    assert_eq!(received, (0..20u8).collect::<Vec<u8>>());
}

#[test]
fn gateways_are_single_hosts() {
    let config = |gateway| StackConfig { mac: [2, 0, 0, 0, 0, 1], ip: left_ip(), prefix_len: 24, gateway };
    assert!(is_config_ok(&config(right_ip())));
    assert!(!is_config_ok(&config(v4(224, 0, 0, 1))));
    assert!(!is_config_ok(&config(v4(0, 0, 0, 0))));
    assert!(!is_config_ok(&config(v4(255, 255, 255, 255))));
    assert!(!is_config_ok(&StackConfig { prefix_len: 33, ..config(right_ip()) }));
    assert!(!is_config_ok(&StackConfig { ip: v4(224, 0, 0, 1), ..config(right_ip()) }));
    assert!(is_unicast(IpAddr::V6(Ipv6Addr::new(0xfd00, 0, 0, 0, 0, 0, 0, 1))));
    assert!(!is_unicast(IpAddr::V6(Ipv6Addr::new(0xff02, 0, 0, 0, 0, 0, 0, 1))));
    assert!(!is_unicast(IpAddr::V6(Ipv6Addr::new(0, 0, 0, 0, 0, 0, 0, 0))));
}

#[test]
fn removed_address_leaves_the_gateway() {
    let (mut left, mut right) = Node::pair();
    let mut now = 0;
    left.command(StackCommand::TcpConnect {
        local_ip: None,
        addr: at(v4(10, 0, 0, 99), 80),
        response: 1,
    });
    run(&mut left, &mut right, &mut now, 3);
    left.command(StackCommand::RemoveIp { ip: left_ip() });
    run(&mut left, &mut right, &mut now, 3);
    assert!(left.stack.poll_interval(now) <= 1000);
}

#[test]
fn udp_binding_wraps_around_the_ports() {
    let (mut left, _) = Node::pair();
    for port in 49152..u16::MAX {
        assert_eq!(left.ports.allocate(), port);
    }
    assert_eq!(left.bind(at(left_ip(), 0)).addr, at(left_ip(), u16::MAX));
    assert_eq!(left.bind(at(left_ip(), 0)).addr, at(left_ip(), 49152));
    assert_eq!(left.bind(at(left_ip(), 0)).addr, at(left_ip(), 49153));
}

#[test]
fn ephemeral_ports_follow_each_other() {
    let mut ports = EphemeralPorts::new();
    assert_eq!(ports.allocate(), 49152);
    assert_eq!(ports.allocate(), 49153);
}

#[test]
fn ephemeral_ports_stay_in_their_range() {
    let mut ports = EphemeralPorts::new();
    let mut seen = Vec::new();
    for _ in 0..EPHEMERAL_PORT_COUNT {
        seen.push(ports.allocate());
    }
    assert!(seen.iter().all(|port| *port >= 49152));
    assert_eq!(seen.last(), Some(&u16::MAX));
    seen.dedup();
    assert_eq!(seen.len(), 16384);
    assert_eq!(ports.allocate(), 49152);
}

#[test]
fn addresses_are_added_and_removed() {
    let (mut left, _) = Node::pair();
    let add = |left: &mut Node, ip, prefix_len| match left.command(StackCommand::AddIp { ip, prefix_len }) {
        Reply::Ip(result) => result,
        _ => panic!("expected an answer"),
    };
    assert_eq!(left.ips(), vec![(left_ip(), 24)]);
    let extra = v4(10, 0, 0, 10);
    add(&mut left, extra, 24).unwrap();
    assert_eq!(left.ips(), vec![(left_ip(), 24), (extra, 24)]);
    add(&mut left, extra, 24).unwrap();
    assert_eq!(left.ips().len(), 2);
    add(&mut left, extra, 16).unwrap();
    let v6 = IpAddr::V6(Ipv6Addr::new(0xfd00, 0, 0, 0, 0, 0, 0, 7));
    add(&mut left, v6, 64).unwrap();
    assert_eq!(left.ips(), vec![(left_ip(), 24), (extra, 24), (extra, 16), (v6, 64)]);
    match left.command(StackCommand::RemoveIp { ip: extra }) {
        Reply::Ip(result) => result.unwrap(),
        _ => panic!("expected an answer"),
    }
    assert_eq!(left.ips(), vec![(left_ip(), 24), (v6, 64)]);

    let mut added = 0u8;
    let error = loop {
        match add(&mut left, v4(10, 0, 1, added), 24) {
            Ok(()) => added += 1,
            Err(error) => break error,
        }
    };
    assert_eq!(error.kind, ErrorKind::OutOfMemory);
    assert_eq!(error.message, "address list full");
    assert_eq!(left.ips().len(), 2 + added as usize);
}

#[test]
fn groups_of_hosts_are_not_assignable() {
    assert!(is_assignable(left_ip()));
    assert!(is_assignable(v4(0, 0, 0, 0)));
    assert!(is_assignable(v4(223, 255, 255, 255)));
    assert!(!is_assignable(v4(224, 0, 0, 1)));
    assert!(!is_assignable(v4(239, 255, 255, 255)));
    assert!(is_assignable(v4(240, 0, 0, 0)));
    assert!(!is_assignable(v4(255, 255, 255, 255)));
    assert!(is_assignable(IpAddr::V6(Ipv6Addr::new(0xfe80, 0, 0, 0, 0, 0, 0, 1))));
    assert!(!is_assignable(IpAddr::V6(Ipv6Addr::new(0xff02, 0, 0, 0, 0, 0, 0, 1))));
    let (left, right) = Node::pair();
    assert!(!left.stack.can_handle(&StackCommand::AddIp { ip: v4(224, 0, 0, 1), prefix_len: 4 }));
    assert!(!left.stack.can_handle(&StackCommand::AddIp { ip: left_ip(), prefix_len: 33 }));
    assert!(left.stack.can_handle(&StackCommand::RemoveIp { ip: right_ip() }));
    let _ = right;
}

#[test]
fn foreign_handles_are_not_handled() {
    let (mut left, mut right) = Node::pair();
    let udp = left.bind(at(left_ip(), 5001));
    assert!(!right.stack.can_handle(&StackCommand::UdpClose { handle: udp.handle }));
    assert!(!left.stack.can_handle(&StackCommand::TcpClose { handle: udp.handle }));
    assert!(left.stack.can_handle(&StackCommand::UdpClose { handle: udp.handle }));
    right.listen(at(right_ip(), 80), 1);
    assert!(!right.stack.holds_udp(udp.handle));
}

#[test]
fn lost_proxy_fails_all_who_wait() {
    let (mut left, mut right) = Node::pair();
    let mut now = 0;
    let listening = left.listen(at(left_ip(), 80), 1);
    left.command(StackCommand::TcpAccept { handle: listening.handle, response: 1 });
    left.command(StackCommand::TcpConnect {
        local_ip: None,
        addr: at(v4(10, 0, 0, 99), 80),
        response: 2,
    });
    run(&mut left, &mut right, &mut now, 3);
    assert!(left.completions.is_empty());
    let (completions, stop) = left.stack.finish_round(false, true, &mut left.stats);
    assert!(stop);
    let mut told: Vec<u32> = completions.iter().map(|c| c.response).collect();
    told.sort();
    assert_eq!(told, vec![1, 2]);
    for completion in completions {
        let error = completion.result.err().unwrap();
        assert_eq!(error.kind, ErrorKind::ConnectionAborted);
        assert_eq!(error.message, "proxy connection lost");
    }
    let (completions, _) = left.stack.finish_round(true, true, &mut left.stats);
    assert!(completions.is_empty());
}

#[test]
fn disconnected_commands_end_the_stack() {
    let (mut left, _) = Node::pair();
    let Node { stack, ports, stats, .. } = &mut left;
    assert!(stack.begin_round(Wakeup::Disconnected, ports, stats).is_none());
    assert!(stack.begin_round(Wakeup::Written, ports, stats).is_some());
    let wakeup = Wakeup::Command(StackCommand::GetIps);
    match stack.begin_round(wakeup, ports, stats) {
        Some(Reply::Ips(ips)) => assert_eq!(ips.len(), 1),
        _ => panic!("expected addresses"),
    }
}

#[test]
fn polling_is_never_far_off() {
    assert_eq!(clamp_poll_delay(None), 1000);
    assert_eq!(clamp_poll_delay(Some(0)), 0);
    assert_eq!(clamp_poll_delay(Some(999)), 999);
    assert_eq!(clamp_poll_delay(Some(1000)), 1000);
    assert_eq!(clamp_poll_delay(Some(u64::MAX)), 1000);
}

#[test]
fn batches_end() {
    let mut batch = IngressBatch::new();
    for i in 0..16 {
        assert!(batch.wants_more());
        batch.note(if i == 3 { Ingress::SocketStateChanged } else { Ingress::PacketProcessed });
    }
    assert!(!batch.wants_more());
    assert!(batch.changed);
    let mut batch = IngressBatch::new();
    batch.note(Ingress::PacketProcessed);
    batch.note(Ingress::Nothing);
    assert!(!batch.wants_more());
    assert!(!batch.changed);
}

#[test]
fn interface_is_set_up_for_any_address() {
    let (mut left, _) = Node::pair();
    assert!(left.stack.iface.any_ip());
    assert_eq!(left.stack.config.ip, left_ip());
    let mut gateways = Vec::new();
    left.stack.iface.routes_mut().update(|routes| {
        gateways = routes.iter().map(|route| route.via_router).collect();
    });
    assert_eq!(gateways, vec![smoltcp::wire::IpAddress::v4(10, 0, 0, 2)]);

    let v6 = IpAddr::V6(Ipv6Addr::new(0xfd00, 0, 0, 0, 0, 0, 0, 1));
    let mut node = Node::new(3, v6, v6);
    assert_eq!(node.ips(), vec![(v6, 24)]);
}

#[test]
fn tcp_channels_lead_to_each_other() {
    let (channels, mut state) = create_tcp_channels(std::sync::Arc::new(tokio::sync::Notify::new()));
    channels.write_tx.try_send(vec![1]).unwrap();
    assert_eq!(state.write_rx.try_recv().unwrap(), vec![1]);
    let mut read_rx = channels.read_rx;
    let read_tx = state.read_tx.take().unwrap();
    for i in 0..8 {
        read_tx.try_send(vec![i]).unwrap();
    }
    assert!(read_tx.try_send(vec![8]).is_err());
    assert_eq!(read_rx.try_recv().unwrap(), vec![0]);
    assert!(state.pending_write.is_none());
}

#[test]
fn idle_sockets_take_and_hand_out_nothing() {
    let buffer = || smoltcp::socket::tcp::SocketBuffer::new(vec![0u8; 16]);
    let mut socket = smoltcp::socket::tcp::Socket::new(buffer(), buffer());
    assert_eq!(flush_pending(&mut socket, Some(vec![1, 2])), (Some(vec![1, 2]), false));
    assert_eq!(flush_pending(&mut socket, None), (None, true));
    assert_eq!(write_pulled(&mut socket, Pull::Item(vec![1])), (None, false));
    assert_eq!(write_pulled(&mut socket, Pull::Empty), (None, false));
    assert_eq!(write_pulled(&mut socket, Pull::Disconnected), (None, false));
    assert!(take_received(&mut socket).is_none());
}

#[test]
fn udp_socket_steps_act_on_what_was_pulled() {
    let buffer = || udp::PacketBuffer::new(vec![udp::PacketMetadata::EMPTY; 1], vec![0u8; 8]);
    let mut socket = udp::Socket::new(buffer(), buffer());
    socket.bind(7).unwrap();
    let to = at(right_ip(), 9);
    let mut stats = TunnelStats::default();
    assert!(write_pulled_packet(&mut socket, Pull::Item((vec![1, 2, 3], to)), &mut stats));
    assert_eq!(socket.send_queue(), 3);
    assert!(write_pulled_packet(&mut socket, Pull::Item((vec![4], to)), &mut stats));
    assert_eq!(socket.send_queue(), 3);
    assert!(!write_pulled_packet(&mut socket, Pull::Empty, &mut stats));
    assert!(take_packet(&mut socket).is_none());
    assert!(!write_pulled_packet(&mut socket, Pull::Disconnected, &mut stats));
    assert!(!socket.is_open());
    assert_eq!(socket.send_queue(), 0);
    assert_eq!(stats.udp_tx_packets, 2);
    assert_eq!(stats.udp_tx_failed, 1);
}
