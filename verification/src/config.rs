//! Configuration of the tunnel.

use vstd::prelude::*;

use crate::addr::{IpAddr, IpWithPrefix};
use crate::error::{invalid_input, Error, ErrorKind};
use crate::ip_text;
use crate::protocol::{default_client_ip, next_ip, ProxyConfig, DEFAULT_MTU};
use crate::stack::StackConfig;
use crate::text;

verus! {

/// Ethernet header size in bytes.
pub const ETHERNET_HEADER_SIZE: usize = 14;

/// Default backlog for TCP listeners.
pub const DEFAULT_TCP_BACKLOG: usize = 8;

/// Configuration for the TAP tunnel.
///
/// The tunnel creates a point-to-point link between the stack (client side)
/// and the TAP interface (namespace side).
#[derive(Clone, Debug)]
pub struct TapConfig {
    /// Name of the TAP interface (default: "tap0")
    pub interface_name: String,
    /// IP address for the TAP interface in the namespace (peer side)
    pub peer_addr: Option<IpWithPrefix>,
    /// IP address for the stack (local/client side)
    pub local_addr: Option<IpWithPrefix>,
    /// MAC address for the stack (default: auto-generated)
    pub mac: Option<[u8; 6]>,
    /// Packet loss percentage for testing (0-100, default: 0)
    pub packet_loss_percent: u8,
    /// Routes to add on the TAP interface in the namespace.
    pub peer_routes: Vec<IpWithPrefix>,
    /// IP-level MTU (Maximum Transmission Unit) in bytes.
    pub mtu: u16,
}

impl Default for TapConfig {
    fn default() -> (config: TapConfig)
        ensures
            config.is_default(),
    {
        TapConfig {
            interface_name: "tap0".to_owned(),
            peer_addr: None,
            local_addr: None,
            mac: None,
            packet_loss_percent: 0,
            peer_routes: Vec::new(),
            mtu: DEFAULT_MTU,
        }
    }
}

impl TapConfig {
    /// Nothing has been configured.
    pub open spec fn is_default(&self) -> bool {
        &&& self.interface_name@ == "tap0"@
        &&& self.peer_addr is None
        &&& self.local_addr is None
        &&& self.mac is None
        &&& self.packet_loss_percent == 0
        &&& self.peer_routes@.len() == 0
        &&& self.mtu == DEFAULT_MTU
    }

    /// Create a new configuration with default settings.
    pub fn new() -> (config: TapConfig)
        ensures
            config.is_default(),
    {
        TapConfig::default()
    }

    /// Set the interface name.
    pub fn interface_name(self, name: &str) -> (config: TapConfig)
        ensures
            config.interface_name@ == name@,
            config == (TapConfig { interface_name: config.interface_name, ..self }),
    {
        TapConfig { interface_name: name.to_owned(), ..self }
    }

    /// Set the IP address for the TAP interface in the namespace.
    /// This is the address that servers in the namespace should listen on.
    pub fn peer_addr(self, addr: IpAddr, prefix_len: u8) -> (config: TapConfig)
        ensures
            config == (TapConfig { peer_addr: Some((addr, prefix_len)), ..self }),
    {
        TapConfig { peer_addr: Some((addr, prefix_len)), ..self }
    }

    /// Set the IP address for the stack (client side).
    /// This is the source address used when connecting to servers.
    pub fn local_addr(self, addr: IpAddr, prefix_len: u8) -> (config: TapConfig)
        ensures
            config == (TapConfig { local_addr: Some((addr, prefix_len)), ..self }),
    {
        TapConfig { local_addr: Some((addr, prefix_len)), ..self }
    }

    /// Set the MAC address for the stack.
    pub fn mac(self, mac: [u8; 6]) -> (config: TapConfig)
        ensures
            config == (TapConfig { mac: Some(mac), ..self }),
    {
        TapConfig { mac: Some(mac), ..self }
    }

    /// Set the packet loss percentage for testing (0-100).
    pub fn packet_loss_percent(self, percent: u8) -> (config: TapConfig)
        ensures
            config == (TapConfig { packet_loss_percent: percent, ..self }),
    {
        TapConfig { packet_loss_percent: percent, ..self }
    }

    /// Add a route on the TAP interface in the namespace.
    ///
    /// This creates a device route, so that the namespace's kernel routes
    /// traffic for these IPs through the TAP interface.
    pub fn peer_route(self, dest: IpAddr, prefix_len: u8) -> (config: TapConfig)
        ensures
            config.peer_routes@ == self.peer_routes@.push((dest, prefix_len)),
            config == (TapConfig { peer_routes: config.peer_routes, ..self }),
    {
        let mut config = self;
        config.peer_routes.push((dest, prefix_len));
        config
    }

    /// Set the IP-level MTU (Maximum Transmission Unit) in bytes.
    pub fn mtu(self, mtu: u16) -> (config: TapConfig)
        ensures
            config == (TapConfig { mtu, ..self }),
    {
        TapConfig { mtu, ..self }
    }
}

/// A locally administered MAC address that ends in the lowest byte of `id`.
pub open spec fn mac_for(id: u32) -> Seq<u8> {
    seq![0x02u8, 0, 0, 0, 0, (id % 256) as u8]
}

/// A locally administered MAC address that ends in the lowest byte of `id`.
pub fn default_mac(id: u32) -> (mac: [u8; 6])
    ensures
        mac@ == mac_for(id),
{
    let mac: [u8; 6] = [0x02, 0x00, 0x00, 0x00, 0x00, (id % 256) as u8];
    assert(mac@ =~= mac_for(id));
    mac
}

/// The client's address: the one asked for, or the one after the TAP
/// interface's.
pub open spec fn client_ip(asked: Option<IpAddr>, tap_ip: IpAddr) -> IpAddr {
    match asked {
        Some(ip) => ip,
        None => next_ip(tap_ip),
    }
}

/// There is an address after `ip`.
pub open spec fn has_next(ip: IpAddr) -> bool {
    ip matches IpAddr::V4(v4) ==> v4.bits < u32::MAX
}

/// Whether there is an address after `ip`.
pub fn has_next_ip(ip: IpAddr) -> (yes: bool)
    ensures
        yes == has_next(ip),
{
    match ip {
        IpAddr::V4(v4) => v4.bits < u32::MAX,
        IpAddr::V6(_) => true,
    }
}

fn pick_client_ip(asked: Option<IpAddr>, tap_ip: IpAddr) -> (ip: IpAddr)
    requires
        asked is None ==> has_next(tap_ip),
    ensures
        ip == client_ip(asked, tap_ip),
{
    match asked {
        Some(ip) => ip,
        None => default_client_ip(tap_ip),
    }
}

/// The address that a configuration asks for.
pub open spec fn asked_ip(config: TapConfig) -> Option<IpAddr> {
    match config.local_addr {
        Some(addr) => Some(addr.0),
        None => None,
    }
}

/// The configuration after the proxy has told its identity: both addresses in
/// the proxy's subnet, the proxy's MTU, and a MAC address made from the process
/// id where none was given.
pub fn apply_proxy_config(config: TapConfig, proxy: ProxyConfig, pid: u32) -> (result: TapConfig)
    requires
        config.local_addr is None ==> has_next(proxy.tap_ip),
    ensures
        result == (TapConfig {
            peer_addr: Some((proxy.tap_ip, proxy.prefix_len)),
            local_addr: Some((client_ip(asked_ip(config), proxy.tap_ip), proxy.prefix_len)),
            mtu: proxy.mtu,
            mac: result.mac,
            ..config
        }),
        config.mac is Some ==> result.mac == config.mac,
        config.mac is None ==> result.mac is Some && result.mac->0@ == mac_for(pid),
{
    let asked = match config.local_addr {
        Some((ip, _)) => Some(ip),
        None => None,
    };
    let ip = pick_client_ip(asked, proxy.tap_ip);
    let config = config.peer_addr(proxy.tap_ip, proxy.prefix_len).local_addr(
        ip,
        proxy.prefix_len,
    ).mtu(proxy.mtu);
    match config.mac {
        Some(_) => config,
        None => config.mac(default_mac(pid)),
    }
}

/// The configuration of a client that knows only what the proxy has told, and
/// perhaps which address it wants.
pub fn config_from_proxy(proxy: ProxyConfig, local_ip: Option<IpAddr>) -> (config: TapConfig)
    requires
        local_ip is None ==> has_next(proxy.tap_ip),
    ensures
        config.peer_addr == Some((proxy.tap_ip, proxy.prefix_len)),
        config.local_addr == Some((client_ip(local_ip, proxy.tap_ip), proxy.prefix_len)),
        config.mtu == proxy.mtu,
        config.interface_name@ == "tap0"@,
        config.mac is None,
        config.packet_loss_percent == 0,
        config.peer_routes@.len() == 0,
{
    let ip = pick_client_ip(local_ip, proxy.tap_ip);
    TapConfig::new().peer_addr(proxy.tap_ip, proxy.prefix_len).local_addr(
        ip,
        proxy.prefix_len,
    ).mtu(proxy.mtu)
}

/// The configuration of the stack. The gateway is the TAP interface.
pub fn stack_config(config: &TapConfig, process_id: u32) -> (result: Result<StackConfig, Error>)
    ensures
        match (config.local_addr, config.peer_addr) {
            (None, _) => result is Err && result->Err_0.reads(
                ErrorKind::InvalidInput,
                "local_addr must be configured"@,
            ),
            (Some(_), None) => result is Err && result->Err_0.reads(
                ErrorKind::InvalidInput,
                "peer_addr missing"@,
            ),
            (Some(local), Some(peer)) => {
                &&& result is Ok
                &&& result->Ok_0.ip == local.0
                &&& result->Ok_0.prefix_len == local.1
                &&& result->Ok_0.gateway == peer.0
                &&& match config.mac {
                    Some(mac) => result->Ok_0.mac == mac,
                    None => result->Ok_0.mac@ == mac_for(process_id),
                }
            },
        },
{
    let mac = match config.mac {
        Some(mac) => mac,
        None => default_mac(process_id),
    };
    let (ip, prefix_len) = match config.local_addr {
        Some(addr) => addr,
        None => {
            return Err(invalid_input("local_addr must be configured"));
        },
    };
    let gateway = match config.peer_addr {
        Some((gateway, _)) => gateway,
        None => {
            return Err(invalid_input("peer_addr missing"));
        },
    };
    Ok(StackConfig { mac, ip, prefix_len, gateway })
}

/// The largest Ethernet frame on a link with this MTU.
pub fn ethernet_frame_size(mtu: u16) -> (size: usize)
    ensures
        size == mtu + ETHERNET_HEADER_SIZE,
{
    mtu as usize + ETHERNET_HEADER_SIZE
}

/// The MTU to set on the TAP interface: none where it is what the kernel sets.
pub fn mtu_to_set(mtu: u16) -> (set: Option<u16>)
    ensures
        set == if mtu == DEFAULT_MTU {
            None
        } else {
            Some(mtu)
        },
{
    if mtu == DEFAULT_MTU {
        None
    } else {
        Some(mtu)
    }
}

/// The arguments as texts.
pub open spec fn arg_texts(args: Seq<String>) -> Seq<Seq<char>> {
    args.map_values(|arg: String| arg@)
}

/// The arguments for the routes, each behind its option.
pub open spec fn route_args(routes: Seq<IpWithPrefix>) -> Seq<Seq<char>>
    decreases routes.len(),
{
    if routes.len() == 0 {
        Seq::empty()
    } else {
        route_args(routes.drop_last()) + seq![
            "--tap-route"@,
            ip_text::ip_prefix_text(routes.last().0, routes.last().1),
        ]
    }
}

/// The arguments that a proxy is started with.
pub open spec fn proxy_arg_texts(pid: u32, frame_fd: u32, config: TapConfig) -> Seq<Seq<char>> {
    seq![
        "--pid"@,
        text::decimal(pid as nat),
        "--frame-fd"@,
        text::decimal(frame_fd as nat),
        "--tap-name"@,
        config.interface_name@,
    ] + match config.peer_addr {
        Some((ip, prefix)) => seq!["--tap-addr"@, ip_text::ip_prefix_text(ip, prefix)],
        None => Seq::empty(),
    } + seq!["--mtu"@, text::decimal(config.mtu as nat)] + route_args(config.peer_routes@)
}

fn push_arg(args: &mut Vec<String>, arg: String)
    ensures
        arg_texts(final(args)@) == arg_texts(old(args)@).push(arg@),
{
    let ghost before = args@;
    args.push(arg);
    assert(arg_texts(args@) =~= arg_texts(before).push(arg@));
}

/// The arguments to start a proxy with, that finds its socket under the
/// descriptor `frame_fd`.
pub fn proxy_args(pid: u32, frame_fd: u32, config: &TapConfig) -> (args: Vec<String>)
    ensures
        arg_texts(args@) == proxy_arg_texts(pid, frame_fd, *config),
{
    let mut args: Vec<String> = Vec::new();
    push_arg(&mut args, "--pid".to_owned());
    push_arg(&mut args, text::to_decimal(pid as u64));
    push_arg(&mut args, "--frame-fd".to_owned());
    push_arg(&mut args, text::to_decimal(frame_fd as u64));
    push_arg(&mut args, "--tap-name".to_owned());
    push_arg(&mut args, text::join(config.interface_name.as_str(), ""));
    proof {
        reveal_strlit("");
        assert(config.interface_name@ + ""@ =~= config.interface_name@);
    }
    match config.peer_addr {
        Some((ip, prefix)) => {
            push_arg(&mut args, "--tap-addr".to_owned());
            push_arg(&mut args, ip_text::ip_prefix_to_text(ip, prefix));
        },
        None => {},
    }
    push_arg(&mut args, "--mtu".to_owned());
    push_arg(&mut args, text::to_decimal(config.mtu as u64));
    let ghost fixed = arg_texts(args@);
    let mut i: usize = 0;
    assert(config.peer_routes@.take(0) =~= Seq::<IpWithPrefix>::empty());
    assert(fixed + route_args(config.peer_routes@.take(0)) =~= fixed);
    while i < config.peer_routes.len()
        invariant
            i <= config.peer_routes@.len(),
            arg_texts(args@) == fixed + route_args(config.peer_routes@.take(i as int)),
        decreases config.peer_routes@.len() - i,
    {
        let (dest, prefix) = config.peer_routes[i];
        let ghost before = arg_texts(args@);
        push_arg(&mut args, "--tap-route".to_owned());
        push_arg(&mut args, ip_text::ip_prefix_to_text(dest, prefix));
        proof {
            let routes = config.peer_routes@.take(i + 1);
            assert(routes.drop_last() =~= config.peer_routes@.take(i as int));
            assert(arg_texts(args@) =~= fixed + route_args(routes));
        }
        i = i + 1;
    }
    assert(config.peer_routes@.take(i as int) =~= config.peer_routes@);
    assert(arg_texts(args@) =~= proxy_arg_texts(pid, frame_fd, *config));
    args
}

/// A new configuration is for the interface tap0 with an MTU of 1500 bytes, and
/// nothing else is set.
pub proof fn nothing_is_set_at_first(config: TapConfig)
    requires
        call_ensures(TapConfig::new, (), config),
    ensures
        config.interface_name@ == "tap0"@,
        config.mtu == 1500,
        config.peer_addr is None && config.local_addr is None && config.mac is None,
        config.packet_loss_percent == 0,
        config.peer_routes@.len() == 0,
{
}

/// Each setting changes what it is named after, to the value that it is given, and
/// leaves the rest.
pub proof fn settings_change_one_thing(
    config: TapConfig,
    name: &str,
    ip: IpAddr,
    prefix_len: u8,
    mac: [u8; 6],
    percent: u8,
    mtu: u16,
    named: TapConfig,
    peered: TapConfig,
    placed: TapConfig,
    with_mac: TapConfig,
    lossy: TapConfig,
    routed: TapConfig,
    sized: TapConfig,
)
    requires
        call_ensures(TapConfig::interface_name, (config, name), named),
        call_ensures(TapConfig::peer_addr, (config, ip, prefix_len), peered),
        call_ensures(TapConfig::local_addr, (config, ip, prefix_len), placed),
        call_ensures(TapConfig::mac, (config, mac), with_mac),
        call_ensures(TapConfig::packet_loss_percent, (config, percent), lossy),
        call_ensures(TapConfig::peer_route, (config, ip, prefix_len), routed),
        call_ensures(TapConfig::mtu, (config, mtu), sized),
    ensures
        named.interface_name@ == name@,
        named == (TapConfig { interface_name: named.interface_name, ..config }),
        peered.peer_addr == Some((ip, prefix_len)),
        peered == (TapConfig { peer_addr: peered.peer_addr, ..config }),
        placed.local_addr == Some((ip, prefix_len)),
        placed == (TapConfig { local_addr: placed.local_addr, ..config }),
        with_mac.mac == Some(mac),
        with_mac == (TapConfig { mac: with_mac.mac, ..config }),
        lossy.packet_loss_percent == percent,
        lossy == (TapConfig { packet_loss_percent: percent, ..config }),
        routed.peer_routes@.len() == config.peer_routes@.len() + 1,
        routed.peer_routes@.drop_last() == config.peer_routes@,
        routed.peer_routes@.last() == (ip, prefix_len),
        routed == (TapConfig { peer_routes: routed.peer_routes, ..config }),
        sized.mtu == mtu,
        sized == (TapConfig { mtu, ..config }),
{
    assert(routed.peer_routes@.drop_last() =~= config.peer_routes@);
}

/// The MAC address that is made up is of a single host and locally administered. It
/// goes by the lowest byte of the number, and by nothing else.
pub proof fn made_up_macs_are_local(id: u32, mac: [u8; 6], other: u32, other_mac: [u8; 6])
    requires
        call_ensures(default_mac, (id,), mac),
        call_ensures(default_mac, (other,), other_mac),
    ensures
        mac@.len() == 6,
        mac@[0] == 2 && mac@[1] == 0 && mac@[2] == 0 && mac@[3] == 0 && mac@[4] == 0,
        mac@[5] as u32 == id % 256,
        mac@ == other_mac@ <==> id % 256 == other % 256,
{
    if id % 256 == other % 256 {
        assert(mac@ =~= other_mac@);
    } else {
        assert(mac@[5] != other_mac@[5]);
    }
}

/// Once the proxy has told of itself, the interface has the proxy's address and
/// MTU, and the client is in the proxy's subnet: at the address that it asked for,
/// or at the one that follows the proxy's. What else was set stays.
pub proof fn the_proxy_decides_on_the_subnet(
    config: TapConfig,
    proxy: ProxyConfig,
    pid: u32,
    result: TapConfig,
)
    requires
        config.local_addr is None ==> (proxy.tap_ip matches IpAddr::V4(v4) ==> v4.bits
            < 0xffff_ffff),
        call_ensures(apply_proxy_config, (config, proxy, pid), result),
    ensures
        result.peer_addr == Some((proxy.tap_ip, proxy.prefix_len)),
        result.mtu == proxy.mtu,
        result.local_addr matches Some((ip, len)) && len == proxy.prefix_len && match config.local_addr {
            Some((asked, _)) => ip == asked,
            None => match (ip, proxy.tap_ip) {
                (IpAddr::V4(own), IpAddr::V4(tap)) => own.bits == tap.bits + 1,
                (IpAddr::V6(own), IpAddr::V6(tap)) => tap.bits < u128::MAX ==> own.bits
                    == tap.bits + 1,
                _ => false,
            },
        },
        config.mac is Some ==> result.mac == config.mac,
        config.mac is None ==> (result.mac matches Some(mac) && mac@[0] == 2 && mac@[5] as u32 == pid
            % 256),
        result.interface_name == config.interface_name,
        result.packet_loss_percent == config.packet_loss_percent,
        result.peer_routes == config.peer_routes,
{
}

/// A client that knows only the proxy gets the proxy's address and MTU, and an
/// address in the same subnet.
pub proof fn the_proxy_is_enough(
    proxy: ProxyConfig,
    local_ip: Option<IpAddr>,
    config: TapConfig,
)
    requires
        local_ip is None ==> (proxy.tap_ip matches IpAddr::V4(v4) ==> v4.bits < 0xffff_ffff),
        call_ensures(config_from_proxy, (proxy, local_ip), config),
    ensures
        config.peer_addr == Some((proxy.tap_ip, proxy.prefix_len)),
        config.mtu == proxy.mtu,
        config.local_addr matches Some((ip, len)) && len == proxy.prefix_len && match local_ip {
            Some(asked) => ip == asked,
            None => match (ip, proxy.tap_ip) {
                (IpAddr::V4(own), IpAddr::V4(tap)) => own.bits == tap.bits + 1,
                (IpAddr::V6(own), IpAddr::V6(tap)) => tap.bits < u128::MAX ==> own.bits
                    == tap.bits + 1,
                _ => false,
            },
        },
        config.interface_name@ == "tap0"@,
        config.mac is None,
        config.packet_loss_percent == 0,
        config.peer_routes@.len() == 0,
{
}

/// The stack has the local address, and the peer's as its gateway; both are needed.
/// Its MAC address is the one that was set, or one that is made up.
pub proof fn the_peer_is_the_gateway(
    config: &TapConfig,
    process_id: u32,
    result: Result<StackConfig, Error>,
)
    requires
        call_ensures(stack_config, (config, process_id), result),
    ensures
        result is Ok <==> config.local_addr is Some && config.peer_addr is Some,
        result matches Ok(stack) ==> {
            &&& config.local_addr == Some((stack.ip, stack.prefix_len))
            &&& config.peer_addr matches Some((gateway, _)) && stack.gateway == gateway
            &&& config.mac matches Some(mac) ==> stack.mac == mac
            &&& config.mac is None ==> stack.mac@[0] == 2 && stack.mac@[5] as u32 == process_id
                % 256
        },
        result matches Err(error) ==> error.kind == ErrorKind::InvalidInput && error.message@ == if config.local_addr is None {
            "local_addr must be configured"@
        } else {
            "peer_addr missing"@
        },
{
}

/// A frame has 14 bytes more than the packet in it, and only another MTU than 1500
/// is set.
pub proof fn frames_have_a_header(mtu: u16, size: usize, set: Option<u16>)
    requires
        call_ensures(ethernet_frame_size, (mtu,), size),
        call_ensures(mtu_to_set, (mtu,), set),
    ensures
        size == mtu + 14,
        set is None <==> mtu == 1500,
        set matches Some(value) ==> value == mtu,
{
}

/// An address has one that follows it, but for the last of IPv4.
pub proof fn only_the_last_address_has_none_after_it(ip: IpAddr, yes: bool)
    requires
        call_ensures(has_next_ip, (ip,), yes),
    ensures
        !yes <==> (ip is V4 && ip->V4_0.bits == 0xffff_ffff),
{
}

proof fn lemma_route_args(routes: Seq<IpWithPrefix>, i: int)
    requires
        0 <= i < routes.len(),
    ensures
        route_args(routes).len() == 2 * routes.len(),
        route_args(routes)[2 * i] == "--tap-route"@,
        route_args(routes)[2 * i + 1] == ip_text::ip_prefix_text(routes[i].0, routes[i].1),
    decreases routes.len(),
{
    let init = routes.drop_last();
    if i < init.len() {
        lemma_route_args(init, i);
    } else if init.len() > 0 {
        lemma_route_args(init, 0);
    } else {
        assert(route_args(init).len() == 0);
    }
    let last = ip_text::ip_prefix_text(routes.last().0, routes.last().1);
    assert(route_args(routes) == route_args(init) + seq!["--tap-route"@, last]);
}

/// Every argument of the proxy stands behind its option: the process, the
/// descriptor, the name, the address where there is one, the MTU, and the routes in
/// their order.
pub proof fn arguments_stand_behind_their_options(
    pid: u32,
    frame_fd: u32,
    config: &TapConfig,
    args: Vec<String>,
    pid_text: String,
    fd_text: String,
    mtu_text: String,
)
    requires
        call_ensures(proxy_args, (pid, frame_fd, config), args),
        call_ensures(text::to_decimal, (pid as u64,), pid_text),
        call_ensures(text::to_decimal, (frame_fd as u64,), fd_text),
        call_ensures(text::to_decimal, (config.mtu as u64,), mtu_text),
    ensures
        ({
            let at = if config.peer_addr is Some {
                8int
            } else {
                6int
            };
            &&& args@.len() == at + 2 + 2 * config.peer_routes@.len()
            &&& args@[0]@ == "--pid"@ && args@[1]@ == pid_text@
            &&& args@[2]@ == "--frame-fd"@ && args@[3]@ == fd_text@
            &&& args@[4]@ == "--tap-name"@ && args@[5]@ == config.interface_name@
            &&& config.peer_addr is Some ==> args@[6]@ == "--tap-addr"@
            &&& args@[at]@ == "--mtu"@ && args@[at + 1]@ == mtu_text@
            &&& forall|i: int|
                0 <= i < config.peer_routes@.len() ==> (#[trigger] args@[at + 2 + 2 * i])@
                    == "--tap-route"@
        }),
{
    let texts = arg_texts(args@);
    let at = if config.peer_addr is Some {
        8int
    } else {
        6int
    };
    let routes = route_args(config.peer_routes@);
    if config.peer_routes@.len() > 0 {
        lemma_route_args(config.peer_routes@, 0);
    }
    assert(texts.len() == args@.len());
    assert forall|i: int| 0 <= i < args@.len() implies (#[trigger] args@[i])@ == texts[i] by {}
    assert forall|i: int| 0 <= i < config.peer_routes@.len() implies (#[trigger] args@[at + 2 + 2
        * i])@ == "--tap-route"@ by {
        lemma_route_args(config.peer_routes@, i);
        assert(texts[at + 2 + 2 * i] == routes[2 * i]);
    }
}

/// The address and each route are written as addresses with their prefixes are.
pub proof fn addresses_are_written_with_their_prefix(
    pid: u32,
    frame_fd: u32,
    config: &TapConfig,
    args: Vec<String>,
    i: int,
    route_text: String,
    addr_text: String,
)
    requires
        call_ensures(proxy_args, (pid, frame_fd, config), args),
        0 <= i < config.peer_routes@.len(),
        call_ensures(
            ip_text::ip_prefix_to_text,
            (config.peer_routes@[i].0, config.peer_routes@[i].1),
            route_text,
        ),
        config.peer_addr matches Some((ip, prefix_len)) && call_ensures(
            ip_text::ip_prefix_to_text,
            (ip, prefix_len),
            addr_text,
        ),
    ensures
        args@[7]@ == addr_text@,
        args@[11 + 2 * i]@ == route_text@,
{
    let texts = arg_texts(args@);
    let routes = route_args(config.peer_routes@);
    lemma_route_args(config.peer_routes@, i);
    assert(texts.len() == args@.len());
    assert(args@[7]@ == texts[7]);
    assert(args@[11 + 2 * i]@ == texts[11 + 2 * i]);
    assert(texts[11 + 2 * i] == routes[2 * i + 1]);
}

/// The default configuration is a new one.
pub proof fn the_default_is_new(config: TapConfig)
    requires
        call_ensures(TapConfig::default, (), config),
    ensures
        config.interface_name@ == "tap0"@,
        config.mtu == 1500,
        config.peer_addr is None && config.local_addr is None && config.mac is None,
        config.packet_loss_percent == 0,
        config.peer_routes@.len() == 0,
{
}

} // verus!
