use tap_tunnel::addr::{IpAddr, Ipv4Addr, Ipv6Addr};
use tap_tunnel::cli::{build_tap_config, check_socket_path, choose_mode, Mode, TapArgs};
use tap_tunnel::config::{
    apply_proxy_config, config_from_proxy, default_mac, ethernet_frame_size, has_next_ip,
    mtu_to_set, proxy_args, stack_config,
};
use tap_tunnel::error::ErrorKind;
use tap_tunnel::locate::{join_path, Search, SearchStep, Surroundings};
use tap_tunnel::namespace::{join_order, Namespace};
use tap_tunnel::protocol::ProxyConfig;
use tap_tunnel::TapConfig;

fn v4(a: u8, b: u8, c: u8, d: u8) -> IpAddr {
    IpAddr::V4(Ipv4Addr::new(a, b, c, d))
}

fn proxy() -> ProxyConfig {
    ProxyConfig { tap_ip: v4(10, 0, 0, 1), tap_mac: [2, 1, 1, 1, 1, 1], prefix_len: 24, mtu: 4000 }
}

#[test]
fn defaults() {
    let config = TapConfig::new();
    assert_eq!(config.interface_name, "tap0");
    assert!(config.peer_addr.is_none() && config.local_addr.is_none() && config.mac.is_none());
    assert_eq!(config.packet_loss_percent, 0);
    assert!(config.peer_routes.is_empty());
    assert_eq!(config.mtu, 1500);
}

#[test]
fn builders_set_their_field() {
    let config = TapConfig::new()
        .interface_name("tap1")
        .peer_addr(v4(10, 0, 0, 1), 24)
        .local_addr(v4(10, 0, 0, 2), 25)
        .mac([1, 2, 3, 4, 5, 6])
        .packet_loss_percent(20)
        .peer_route(v4(10, 99, 0, 0), 24)
        .peer_route(v4(10, 88, 0, 0), 16)
        .mtu(512);
    assert_eq!(config.interface_name, "tap1");
    assert_eq!(config.peer_addr, Some((v4(10, 0, 0, 1), 24)));
    assert_eq!(config.local_addr, Some((v4(10, 0, 0, 2), 25)));
    assert_eq!(config.mac, Some([1, 2, 3, 4, 5, 6]));
    assert_eq!(config.packet_loss_percent, 20);
    assert_eq!(config.peer_routes, vec![(v4(10, 99, 0, 0), 24), (v4(10, 88, 0, 0), 16)]);
    assert_eq!(config.mtu, 512);
}

#[test]
fn proxy_identity_is_applied() {
    let config = apply_proxy_config(TapConfig::new(), proxy(), 0x1234);
    assert_eq!(config.peer_addr, Some((v4(10, 0, 0, 1), 24)));
    assert_eq!(config.local_addr, Some((v4(10, 0, 0, 2), 24)));
    assert_eq!(config.mtu, 4000);
    assert_eq!(config.mac, Some([2, 0, 0, 0, 0, 0x34]));

    let asked = TapConfig::new().local_addr(v4(10, 0, 0, 9), 16).mac([9; 6]).interface_name("tap7");
    let config = apply_proxy_config(asked, proxy(), 1);
    assert_eq!(config.local_addr, Some((v4(10, 0, 0, 9), 24)));
    assert_eq!(config.mac, Some([9; 6]));
    assert_eq!(config.interface_name, "tap7");
}

#[test]
fn client_knows_what_the_proxy_told() {
    let config = config_from_proxy(proxy(), None);
    assert_eq!(config.peer_addr, Some((v4(10, 0, 0, 1), 24)));
    assert_eq!(config.local_addr, Some((v4(10, 0, 0, 2), 24)));
    assert_eq!(config.mtu, 4000);
    assert!(config.mac.is_none());
    let config = config_from_proxy(proxy(), Some(v4(10, 0, 0, 10)));
    assert_eq!(config.local_addr, Some((v4(10, 0, 0, 10), 24)));
}

#[test]
fn there_is_no_address_after_the_last() {
    assert!(has_next_ip(v4(255, 255, 255, 254)));
    assert!(!has_next_ip(v4(255, 255, 255, 255)));
    assert!(has_next_ip(IpAddr::V6(Ipv6Addr { bits: u128::MAX })));
}

#[test]
fn stack_needs_both_addresses() {
    let error = stack_config(&TapConfig::new(), 1).unwrap_err();
    assert_eq!(error.kind, ErrorKind::InvalidInput);
    assert_eq!(error.message, "local_addr must be configured");
    let half = TapConfig::new().local_addr(v4(10, 0, 0, 2), 24);
    let error = stack_config(&half, 1).unwrap_err();
    assert_eq!(error.kind, ErrorKind::InvalidInput);
    assert_eq!(error.message, "peer_addr missing");
    let config = stack_config(&half.peer_addr(v4(10, 0, 0, 1), 8), 0x1ff).unwrap();
    assert_eq!(config.ip, v4(10, 0, 0, 2));
    assert_eq!(config.prefix_len, 24);
    assert_eq!(config.gateway, v4(10, 0, 0, 1));
    assert_eq!(config.mac, [2, 0, 0, 0, 0, 0xff]);
    let given = config_from_proxy(proxy(), None).mac([7; 6]);
    assert_eq!(stack_config(&given, 1).unwrap().mac, [7; 6]);
}

#[test]
fn sizes_follow_the_mtu() {
    assert_eq!(ethernet_frame_size(1500), 1514);
    assert_eq!(ethernet_frame_size(u16::MAX), 65549);
    assert_eq!(mtu_to_set(1500), None);
    assert_eq!(mtu_to_set(4000), Some(4000));
    assert_eq!(default_mac(0x0102_03ff), [2, 0, 0, 0, 0, 0xff]);
}

#[test]
fn proxy_is_told_everything() {
    let args = proxy_args(1234, 5, &TapConfig::new());
    assert_eq!(
        args,
        vec!["--pid", "1234", "--frame-fd", "5", "--tap-name", "tap0", "--mtu", "1500"]
    );
    let v6 = IpAddr::V6(Ipv6Addr::new(0xfd00, 0, 0, 0, 0, 0, 0, 0));
    let config = TapConfig::new()
        .peer_addr(v4(10, 0, 0, 1), 24)
        .mtu(4000)
        .peer_route(v4(10, 99, 0, 0), 24)
        .peer_route(v6, 64);
    assert_eq!(
        proxy_args(1, 0, &config),
        vec![
            "--pid", "1", "--frame-fd", "0", "--tap-name", "tap0", "--tap-addr", "10.0.0.1/24",
            "--mtu", "4000", "--tap-route", "10.99.0.0/24", "--tap-route", "fd00::/64",
        ]
    );
}

#[test]
fn command_line_becomes_configuration() {
    let args = TapArgs {
        tap_name: String::from("tap3"),
        tap_addr: Some(String::from("10.0.0.1/24")),
        packet_loss: 5,
        tap_route: vec![
            String::from("10.99.0.0/24"),
            String::from("nonsense"),
            String::from("fd00::/64"),
            String::from("10.0.0.0/33"),
        ],
        mtu: 512,
    };
    let (config, complaints) = build_tap_config(&args);
    assert_eq!(config.interface_name, "tap3");
    assert_eq!(config.peer_addr, Some((v4(10, 0, 0, 1), 24)));
    assert_eq!(config.packet_loss_percent, 5);
    assert_eq!(config.mtu, 512);
    let v6 = IpAddr::V6(Ipv6Addr::new(0xfd00, 0, 0, 0, 0, 0, 0, 0));
    assert_eq!(config.peer_routes, vec![(v4(10, 99, 0, 0), 24), (v6, 64)]);
    assert_eq!(
        complaints,
        vec!["invalid tap-route format: nonsense", "invalid tap-route format: 10.0.0.0/33"]
    );

    let args = TapArgs { tap_addr: Some(String::from("10.0.0.1")), tap_route: vec![], ..args };
    let (config, complaints) = build_tap_config(&args);
    assert!(config.peer_addr.is_none());
    assert_eq!(complaints, vec!["invalid tap-addr format: 10.0.0.1"]);
}

#[test]
fn what_the_client_tells_the_proxy_understands() {
    let config = TapConfig::new().peer_addr(v4(10, 0, 0, 1), 24).peer_route(v4(10, 9, 0, 0), 16);
    let told = proxy_args(1, 3, &config);
    let args = TapArgs {
        tap_name: told[5].clone(),
        tap_addr: Some(told[7].clone()),
        packet_loss: 0,
        tap_route: vec![told[11].clone()],
        mtu: told[9].parse().unwrap(),
    };
    let (understood, complaints) = build_tap_config(&args);
    assert!(complaints.is_empty());
    assert_eq!(understood.interface_name, config.interface_name);
    assert_eq!(understood.peer_addr, config.peer_addr);
    assert_eq!(understood.peer_routes, config.peer_routes);
    assert_eq!(understood.mtu, config.mtu);
}

#[test]
fn one_way_to_connect_is_needed() {
    assert_eq!(choose_mode(Some(3), false).unwrap(), Mode::FrameFd(3));
    assert_eq!(choose_mode(Some(3), true).unwrap(), Mode::FrameFd(3));
    assert_eq!(choose_mode(None, true).unwrap(), Mode::SocketPath);
    let error = choose_mode(None, false).unwrap_err();
    assert_eq!(error.kind, ErrorKind::InvalidInput);
    assert_eq!(error.message, "either --frame-fd or --socket-path must be specified");
    assert!(check_socket_path(107).is_ok());
    let error = check_socket_path(108).unwrap_err();
    assert_eq!(error.kind, ErrorKind::InvalidInput);
    assert_eq!(error.message, "socket path too long (max 107 bytes)");
}

fn checks(search: &mut Search, upto: usize) -> Vec<String> {
    let mut seen = Vec::new();
    for _ in 0..upto {
        match search.next() {
            SearchStep::Check(path) => {
                seen.push(String::from_utf8(path).unwrap());
                search.checked(false);
            }
            _ => break,
        }
    }
    seen
}

#[test]
fn proxy_is_looked_for_in_order() {
    let surroundings = Surroundings {
        exe_dir: Some((b"/target/debug/deps".to_vec(), Some(b"/target/debug".to_vec()))),
        proxy_var: Some(b"/opt/proxy".to_vec()),
        manifest_dir: Some(b"/src".to_vec()),
    };
    let mut search = Search::new(&surroundings);
    assert_eq!(
        checks(&mut search, 10),
        vec![
            "/target/debug/deps/tap-tunnel-proxy",
            "/opt/proxy",
            "/src/target/debug/tap-tunnel-proxy",
            "/src/target/release/tap-tunnel-proxy",
        ]
    );
    assert!(matches!(search.next(), SearchStep::AskPath));
    search.path_says(Some(" /usr/bin/tap-tunnel-proxy\n"));
    match search.next() {
        SearchStep::Check(path) => assert_eq!(path, b"/usr/bin/tap-tunnel-proxy"),
        _ => panic!("expected a check"),
    }
    search.checked(true);
    match search.next() {
        SearchStep::Found(path) => assert_eq!(path, b"/usr/bin/tap-tunnel-proxy"),
        _ => panic!("it is there"),
    }
}

#[test]
fn directory_above_is_tried_last() {
    let surroundings = Surroundings {
        exe_dir: Some((b"/target/debug/deps".to_vec(), Some(b"/target/debug".to_vec()))),
        proxy_var: None,
        manifest_dir: None,
    };
    let mut search = Search::new(&surroundings);
    assert_eq!(checks(&mut search, 10), vec!["/target/debug/deps/tap-tunnel-proxy"]);
    assert!(matches!(search.next(), SearchStep::AskPath));
    search.path_says(Some("/usr/bin/tap-tunnel-proxy"));
    assert_eq!(
        checks(&mut search, 10),
        vec!["/usr/bin/tap-tunnel-proxy", "/target/debug/tap-tunnel-proxy"]
    );
    assert!(matches!(search.next(), SearchStep::NotFound(_)));
}

#[test]
fn variable_goes_before_the_directory_above() {
    let surroundings = Surroundings {
        exe_dir: Some((b"/bin".to_vec(), Some(b"/".to_vec()))),
        proxy_var: Some(b"/opt/proxy".to_vec()),
        manifest_dir: None,
    };
    let mut search = Search::new(&surroundings);
    assert_eq!(checks(&mut search, 1), vec!["/bin/tap-tunnel-proxy"]);
    match search.next() {
        SearchStep::Check(path) => assert_eq!(path, b"/opt/proxy"),
        _ => panic!("expected a check"),
    }
}

#[test]
fn first_place_that_has_the_proxy_wins() {
    let surroundings = Surroundings {
        exe_dir: Some((b"/bin".to_vec(), None)),
        proxy_var: Some(b"/opt/proxy".to_vec()),
        manifest_dir: None,
    };
    let mut search = Search::new(&surroundings);
    assert_eq!(checks(&mut search, 1), vec!["/bin/tap-tunnel-proxy"]);
    search.checked(true);
    match search.next() {
        SearchStep::Found(path) => assert_eq!(path, b"/opt/proxy"),
        _ => panic!("it is there"),
    }
}

#[test]
fn missing_proxy_is_reported() {
    let nowhere = Surroundings { exe_dir: None, proxy_var: None, manifest_dir: None };
    let mut search = Search::new(&nowhere);
    assert!(matches!(search.next(), SearchStep::AskPath));
    search.path_says(None);
    match search.next() {
        SearchStep::NotFound(error) => {
            assert_eq!(error.kind, ErrorKind::NotFound);
            assert_eq!(
                error.message,
                "proxy binary 'tap-tunnel-proxy' not found. Ensure it's in the same directory as \
                 the executable, set TAP_TUNNEL_PROXY environment variable, or install it in PATH"
            );
        }
        _ => panic!("it is nowhere"),
    }
}

#[test]
fn paths_are_joined() {
    assert_eq!(join_path(b"/a", b"b"), b"/a/b");
    assert_eq!(join_path(b"/a/", b"b"), b"/a/b");
    assert_eq!(join_path(b"", b"b"), b"b");
}

#[test]
fn namespaces_are_joined_in_order() {
    assert_eq!(join_order(), vec![Namespace::User, Namespace::Network]);
    assert_eq!(Namespace::User.path(17), "/proc/17/ns/user");
    assert_eq!(Namespace::Network.path(17), "/proc/17/ns/net");
    let error = Namespace::User.open_failure(ErrorKind::NotFound, "/proc/1/ns/user", "gone");
    assert_eq!(error.kind, ErrorKind::NotFound);
    assert_eq!(error.message, "failed to open user namespace /proc/1/ns/user: gone");
    let error = Namespace::Network.join_failure("EPERM");
    assert_eq!(error.kind, ErrorKind::PermissionDenied);
    assert_eq!(error.message, "failed to join network namespace: EPERM");
}
