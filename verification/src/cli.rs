//! The proxy's command line.

use vstd::prelude::*;

use crate::addr::IpWithPrefix;
use crate::config::TapConfig;
use crate::error::{invalid_input, Error, ErrorKind};
use crate::ip_text::{self, parse_ip_prefix};
use crate::text;

verus! {

/// The longest path that a socket can be bound to, in bytes.
pub const MAX_SOCKET_PATH: usize = 107;

/// What of the command line goes into the configuration.
#[derive(Debug)]
pub struct TapArgs {
    pub tap_name: String,
    /// Address of the TAP interface, as address and prefix length.
    pub tap_addr: Option<String>,
    pub packet_loss: u8,
    /// Routes over the TAP interface, as addresses and prefix lengths.
    pub tap_route: Vec<String>,
    pub mtu: u16,
}

/// Those of the texts that write a route.
pub open spec fn routes_of(texts: Seq<String>) -> Seq<IpWithPrefix>
    decreases texts.len(),
{
    if texts.len() == 0 {
        Seq::empty()
    } else {
        match ip_text::ip_prefix_read(texts.last()@) {
            Some(route) => routes_of(texts.drop_last()).push(route),
            None => routes_of(texts.drop_last()),
        }
    }
}

/// Complaints on those of the texts that write no route.
pub open spec fn route_complaints(texts: Seq<String>) -> Seq<Seq<char>>
    decreases texts.len(),
{
    if texts.len() == 0 {
        Seq::empty()
    } else {
        match ip_text::ip_prefix_read(texts.last()@) {
            Some(_) => route_complaints(texts.drop_last()),
            None => route_complaints(texts.drop_last()).push(
                "invalid tap-route format: "@ + texts.last()@,
            ),
        }
    }
}

/// The address that the arguments give.
pub open spec fn addr_of(args: TapArgs) -> Option<IpWithPrefix> {
    match args.tap_addr {
        Some(text) => ip_text::ip_prefix_read(text@),
        None => None,
    }
}

/// A complaint on the address, if it is none.
pub open spec fn addr_complaint(args: TapArgs) -> Seq<Seq<char>> {
    match args.tap_addr {
        Some(text) => if ip_text::ip_prefix_read(text@) is None {
            seq!["invalid tap-addr format: "@ + text@]
        } else {
            Seq::empty()
        },
        None => Seq::empty(),
    }
}

/// Build the configuration from the command line. What makes no sense there is
/// left out, and complained about.
pub fn build_tap_config(args: &TapArgs) -> (built: (TapConfig, Vec<String>))
    ensures
        built.0.interface_name@ == args.tap_name@,
        built.0.packet_loss_percent == args.packet_loss,
        built.0.mtu == args.mtu,
        built.0.peer_addr == addr_of(*args),
        built.0.peer_routes@ == routes_of(args.tap_route@),
        built.0.local_addr is None,
        built.0.mac is None,
        built.1@.map_values(|s: String| s@) == addr_complaint(*args) + route_complaints(
            args.tap_route@,
        ),
{
    let mut config = TapConfig::new().interface_name(
        args.tap_name.as_str(),
    ).packet_loss_percent(args.packet_loss).mtu(args.mtu);
    let mut complaints: Vec<String> = Vec::new();
    let ghost shown = |s: String| s@;
    match &args.tap_addr {
        Some(text) => match parse_ip_prefix(text.as_str()) {
            Some((ip, prefix)) => {
                config = config.peer_addr(ip, prefix);
            },
            None => {
                complaints.push(text::join("invalid tap-addr format: ", text.as_str()));
            },
        },
        None => {},
    }
    assert(complaints@.map_values(shown) =~= addr_complaint(*args));
    let mut i: usize = 0;
    assert(args.tap_route@.take(0) =~= Seq::<String>::empty());
    assert(config.peer_routes@ =~= routes_of(args.tap_route@.take(0)));
    assert(addr_complaint(*args) + route_complaints(args.tap_route@.take(0)) =~= addr_complaint(
        *args,
    ));
    while i < args.tap_route.len()
        invariant
            i <= args.tap_route@.len(),
            config.interface_name@ == args.tap_name@,
            config.packet_loss_percent == args.packet_loss,
            config.mtu == args.mtu,
            config.peer_addr == addr_of(*args),
            config.local_addr is None,
            config.mac is None,
            config.peer_routes@ == routes_of(args.tap_route@.take(i as int)),
            shown == (|s: String| s@),
            complaints@.map_values(shown) == addr_complaint(*args) + route_complaints(
                args.tap_route@.take(i as int),
            ),
        decreases args.tap_route@.len() - i,
    {
        let route = &args.tap_route[i];
        let ghost before = complaints@;
        proof {
            let now = args.tap_route@.take(i + 1);
            assert(now.drop_last() =~= args.tap_route@.take(i as int));
            assert(now.last() == *route);
        }
        match parse_ip_prefix(route.as_str()) {
            Some((ip, prefix)) => {
                config = config.peer_route(ip, prefix);
            },
            None => {
                complaints.push(text::join("invalid tap-route format: ", route.as_str()));
                assert(complaints@.map_values(shown) =~= before.map_values(shown).push(
                    "invalid tap-route format: "@ + route@,
                ));
                assert(complaints@.map_values(shown) =~= addr_complaint(*args) + route_complaints(
                    args.tap_route@.take(i + 1),
                ));
            },
        }
        i = i + 1;
    }
    assert(args.tap_route@.take(i as int) =~= args.tap_route@);
    (config, complaints)
}

/// Where the proxy gets its connection from.
#[derive(Clone, Copy, Debug, PartialEq, Eq, Structural)]
pub enum Mode {
    /// It has inherited a descriptor.
    FrameFd(i32),
    /// It waits for a client on a socket of its own.
    SocketPath,
}

/// Decide where the connection comes from. One of the two has to be given.
pub fn choose_mode(frame_fd: Option<i32>, has_socket_path: bool) -> (result: Result<Mode, Error>)
    ensures
        match frame_fd {
            Some(fd) => result == Ok::<Mode, Error>(Mode::FrameFd(fd)),
            None => if has_socket_path {
                result == Ok::<Mode, Error>(Mode::SocketPath)
            } else {
                result is Err && result->Err_0.reads(
                    ErrorKind::InvalidInput,
                    "either --frame-fd or --socket-path must be specified"@,
                )
            },
        },
{
    match frame_fd {
        Some(fd) => Ok(Mode::FrameFd(fd)),
        None => if has_socket_path {
            Ok(Mode::SocketPath)
        } else {
            Err(invalid_input("either --frame-fd or --socket-path must be specified"))
        },
    }
}

/// Whether a socket can be bound to a path of this length.
pub fn check_socket_path(len: usize) -> (result: Result<(), Error>)
    ensures
        len <= MAX_SOCKET_PATH ==> result is Ok,
        len > MAX_SOCKET_PATH ==> result is Err && result->Err_0.reads(
            ErrorKind::InvalidInput,
            "socket path too long (max 107 bytes)"@,
        ),
{
    if len > MAX_SOCKET_PATH {
        return Err(invalid_input("socket path too long (max 107 bytes)"));
    }
    Ok(())
}

/// What the command line says goes into the configuration as it is; without routes
/// there are none. An address that makes no sense is left out, with a complaint.
pub proof fn arguments_go_into_the_configuration(
    args: &TapArgs,
    built: (TapConfig, Vec<String>),
)
    requires
        call_ensures(build_tap_config, (args,), built),
    ensures
        built.0.interface_name@ == args.tap_name@,
        built.0.packet_loss_percent == args.packet_loss,
        built.0.mtu == args.mtu,
        built.0.local_addr is None && built.0.mac is None,
        args.tap_addr is None ==> built.0.peer_addr is None,
        args.tap_addr matches Some(text) ==> built.0.peer_addr == ip_text::ip_prefix_read(text@),
        args.tap_route@.len() == 0 ==> {
            &&& built.0.peer_routes@.len() == 0
            &&& args.tap_addr is None || built.0.peer_addr is Some ==> built.1@.len() == 0
            &&& args.tap_addr matches Some(text) ==> (built.0.peer_addr is None ==> built.1@.len()
                == 1 && built.1@[0]@ == "invalid tap-addr format: "@ + text@)
        },
{
    let shown = built.1@.map_values(|s: String| s@);
    assert(shown.len() == built.1@.len());
    if args.tap_route@.len() == 0 && built.1@.len() > 0 {
        assert(shown[0] == built.1@[0]@);
    }
}

/// One more route on the command line is one more in the configuration, behind the
/// others; one that makes no sense is one more complaint instead.
pub proof fn every_route_counts(
    args: &TapArgs,
    built: (TapConfig, Vec<String>),
    more: &TapArgs,
    more_built: (TapConfig, Vec<String>),
    route: String,
)
    requires
        call_ensures(build_tap_config, (args,), built),
        call_ensures(build_tap_config, (more,), more_built),
        more.tap_route@ == args.tap_route@.push(route),
        more.tap_addr == args.tap_addr,
    ensures
        ip_text::ip_prefix_read(route@) matches Some(read) ==> {
            &&& more_built.0.peer_routes@ == built.0.peer_routes@.push(read)
            &&& more_built.1@.len() == built.1@.len()
        },
        ip_text::ip_prefix_read(route@) is None ==> {
            &&& more_built.0.peer_routes@ == built.0.peer_routes@
            &&& more_built.1@.len() == built.1@.len() + 1
            &&& more_built.1@.last()@ == "invalid tap-route format: "@ + route@
        },
        forall|i: int|
            0 <= i < built.1@.len() ==> (#[trigger] more_built.1@[i])@ == built.1@[i]@,
{
    assert(more.tap_route@.drop_last() =~= args.tap_route@);
    let shown = built.1@.map_values(|s: String| s@);
    let more_shown = more_built.1@.map_values(|s: String| s@);
    assert(shown.len() == built.1@.len());
    assert(more_shown.len() == more_built.1@.len());
    assert forall|i: int| 0 <= i < built.1@.len() implies (#[trigger] more_built.1@[i])@
        == built.1@[i]@ by {
        assert(shown[i] == built.1@[i]@);
        assert(more_shown[i] == more_built.1@[i]@);
        assert(more_shown[i] == shown[i]);
    }
    if ip_text::ip_prefix_read(route@) is None {
        assert(more_shown.last() == more_built.1@.last()@);
    }
}

/// A descriptor is taken where there is one, whatever else is given; else the
/// socket. One of them is needed.
pub proof fn descriptors_go_first(
    frame_fd: Option<i32>,
    has_socket_path: bool,
    result: Result<Mode, Error>,
)
    requires
        call_ensures(choose_mode, (frame_fd, has_socket_path), result),
    ensures
        frame_fd matches Some(fd) ==> (result matches Ok(Mode::FrameFd(chosen)) && chosen == fd),
        frame_fd is None && has_socket_path ==> (result matches Ok(Mode::SocketPath)),
        frame_fd is None && !has_socket_path ==> (result matches Err(error) && error.kind
            == ErrorKind::InvalidInput && error.message@
            == "either --frame-fd or --socket-path must be specified"@),
{
}

/// A socket's path has at most 107 bytes.
pub proof fn socket_paths_are_short(len: usize, result: Result<(), Error>)
    requires
        call_ensures(check_socket_path, (len,), result),
    ensures
        result is Ok <==> len <= 107,
        result matches Err(error) ==> error.kind == ErrorKind::InvalidInput && error.message@
            == "socket path too long (max 107 bytes)"@,
{
}

} // verus!
