//! Setting up the TAP interface.

use vstd::prelude::*;

use crate::addr::{IpAddr, IpWithPrefix};
use crate::bytes;
use crate::error::{Error, ErrorKind};

verus! {

/// Room for the name of an interface, with a zero behind it.
pub const IFNAMSIZ: usize = 16;

/// Length of the queue of packets to send, for forwarding at high rates.
pub const TX_QUEUE_LEN: u32 = 5000;

/// Flag of an interface that is up.
pub const IFF_UP: u16 = 1;

/// The bytes of a name, cut off where the field is too short for it.
pub open spec fn cut_name(name: Seq<u8>) -> Seq<u8> {
    if name.len() < IFNAMSIZ {
        name
    } else {
        name.take(IFNAMSIZ - 1)
    }
}

/// A name in its field: with zeros behind it, at least one.
pub open spec fn name_field(name: Seq<u8>) -> Seq<u8> {
    cut_name(name) + Seq::new((IFNAMSIZ - cut_name(name).len()) as nat, |i: int| 0u8)
}

/// Put the name of an interface into its field. A name that is too long is cut
/// off.
pub fn interface_name_field(name: &[u8]) -> (field: Vec<u8>)
    ensures
        field@ == name_field(name@),
        field.len() == IFNAMSIZ,
        field@[IFNAMSIZ - 1] == 0,
{
    let len: usize = if name.len() < IFNAMSIZ {
        name.len()
    } else {
        IFNAMSIZ - 1
    };
    let mut field = bytes::copy_range(name, 0, len);
    assert(field@ =~= cut_name(name@));
    while field.len() < IFNAMSIZ
        invariant
            len <= field.len() <= IFNAMSIZ,
            len == cut_name(name@).len(),
            len < IFNAMSIZ,
            field@ == cut_name(name@) + Seq::new((field.len() - len) as nat, |i: int| 0u8),
        decreases IFNAMSIZ - field.len(),
    {
        let ghost before = field@;
        field.push(0);
        assert(field@ =~= cut_name(name@) + Seq::new((field.len() - len) as nat, |i: int| 0u8));
    }
    field
}

/// A name that fits can be told from every other that fits, unless it has zeros
/// in it.
pub proof fn name_fields_differ(a: Seq<u8>, b: Seq<u8>)
    requires
        a.len() < IFNAMSIZ,
        b.len() < IFNAMSIZ,
        !a.contains(0),
        !b.contains(0),
        name_field(a) == name_field(b),
    ensures
        a == b,
{
    if a.len() < b.len() {
        assert(name_field(a)[a.len() as int] == 0);
        assert(b[a.len() as int] == 0);
    } else if b.len() < a.len() {
        assert(name_field(b)[b.len() as int] == 0);
        assert(a[b.len() as int] == 0);
    }
    assert(name_field(a).take(a.len() as int) =~= a);
    assert(name_field(b).take(b.len() as int) =~= b);
}

/// The mask of an IPv4 subnet: its first `prefix_len` bits are set.
pub fn netmask(prefix_len: u8) -> (mask: u32)
    ensures
        prefix_len >= 32 ==> mask == 0xffff_ffff,
        prefix_len < 32 ==> mask == 0x1_0000_0000 - vstd::arithmetic::power2::pow2(
            (32 - prefix_len) as nat,
        ),
{
    if prefix_len >= 32 {
        return 0xffff_ffff;
    }
    if prefix_len == 0 {
        proof {
            vstd::arithmetic::power2::lemma2_to64();
        }
        return 0;
    }
    let shift: u32 = 32 - prefix_len as u32;
    proof {
        vstd::arithmetic::power2::lemma_pow2_strictly_increases(shift as nat, 32);
        vstd::arithmetic::power2::lemma2_to64();
        vstd::bits::lemma_u32_shl_is_mul(1, shift);
        vstd::arithmetic::power2::lemma_pow2_pos(shift as nat);
    }
    let hosts: u32 = 1u32 << shift;
    0xffff_ffff - (hosts - 1)
}

/// The flags of an interface after it was brought up: all others stay.
pub fn flags_up(flags: u16) -> (up: u16)
    ensures
        up == if flags % 2 == 1 {
            flags as int
        } else {
            flags + 1
        },
{
    if flags % 2 == 1 {
        flags
    } else {
        flags + IFF_UP
    }
}

/// `ipnet::Ipv4Net::new` and `ipnet::Ipv6Net::new`: they take every address
/// with a prefix that its family can have.
#[verifier::external_body]
fn is_net(ip: IpAddr, prefix_len: u8) -> (ok: bool)
    ensures
        ok == (prefix_len <= ip.max_prefix_len()),
{
    match ip {
        IpAddr::V4(v4) => {
            ipnet::Ipv4Net::new(smoltcp::wire::Ipv4Address::from(v4.bits), prefix_len).is_ok()
        },
        IpAddr::V6(v6) => {
            ipnet::Ipv6Net::new(smoltcp::wire::Ipv6Address::from(v6.bits), prefix_len).is_ok()
        },
    }
}

/// One step of setting up an interface.
#[derive(Clone, Copy, Debug, PartialEq, Eq, Structural)]
pub enum InterfaceStep {
    AddAddress { ip: IpAddr, prefix_len: u8 },
    SetMtu { mtu: u16 },
    /// Failing here does no harm.
    SetTxQueueLen { len: u32 },
    BringUp,
    ReadMac,
}

/// The steps of setting up an interface: an address and an MTU if they are
/// given, then the queue, and last it is brought up and asked for its MAC
/// address.
pub open spec fn interface_steps(addr: Option<IpWithPrefix>, mtu: Option<u16>) -> Seq<
    InterfaceStep,
> {
    (match addr {
        Some((ip, prefix_len)) => seq![InterfaceStep::AddAddress { ip, prefix_len }],
        None => Seq::empty(),
    }) + (match mtu {
        Some(mtu) => seq![InterfaceStep::SetMtu { mtu }],
        None => Seq::empty(),
    }) + seq![
        InterfaceStep::SetTxQueueLen { len: TX_QUEUE_LEN },
        InterfaceStep::BringUp,
        InterfaceStep::ReadMac,
    ]
}

/// Plan how to set up an interface.
pub fn plan_interface(addr: Option<IpWithPrefix>, mtu: Option<u16>) -> (result: Result<
    Vec<InterfaceStep>,
    Error,
>)
    ensures
        match result {
            Ok(steps) => {
                &&& addr matches Some((ip, prefix_len)) ==> prefix_len <= ip.max_prefix_len()
                &&& steps@ == interface_steps(addr, mtu)
            },
            Err(error) => {
                &&& addr matches Some((ip, prefix_len)) && prefix_len > ip.max_prefix_len()
                &&& error.reads(ErrorKind::Other, "invalid IP prefix length"@)
            },
        },
{
    let mut steps: Vec<InterfaceStep> = Vec::new();
    match addr {
        Some((ip, prefix_len)) => {
            if !is_net(ip, prefix_len) {
                return Err(Error::new(ErrorKind::Other, "invalid IP prefix length"));
            }
            steps.push(InterfaceStep::AddAddress { ip, prefix_len });
        },
        None => {},
    }
    match mtu {
        Some(mtu) => {
            steps.push(InterfaceStep::SetMtu { mtu });
        },
        None => {},
    }
    steps.push(InterfaceStep::SetTxQueueLen { len: TX_QUEUE_LEN });
    steps.push(InterfaceStep::BringUp);
    steps.push(InterfaceStep::ReadMac);
    assert(steps@ =~= interface_steps(addr, mtu));
    Ok(steps)
}

/// The mask of a subnet has its ones in front and its zeros behind them: as many
/// ones as the prefix is long.
pub proof fn masks_have_their_ones_in_front(prefix_len: u8, mask: u32)
    requires
        call_ensures(netmask, (prefix_len,), mask),
    ensures
        prefix_len >= 32 ==> mask == 0xffff_ffff,
        prefix_len < 32 ==> mask + vstd::arithmetic::power2::pow2((32 - prefix_len) as nat)
            == 0x1_0000_0000,
        prefix_len == 0 ==> mask == 0,
{
    vstd::arithmetic::power2::lemma2_to64();
}

/// Bringing an interface up sets the lowest flag and leaves all others.
pub proof fn only_the_lowest_flag_is_set(flags: u16, up: u16)
    requires
        call_ensures(flags_up, (flags,), up),
    ensures
        up % 2 == 1,
        up / 2 == flags / 2,
{
}

/// A name stands at the start of its field of 16 bytes, with zeros behind it. Only
/// its first 15 bytes have room.
pub proof fn names_stand_in_their_field(name: &[u8], field: Vec<u8>)
    requires
        call_ensures(interface_name_field, (name,), field),
    ensures
        field@.len() == 16,
        forall|i: int| 0 <= i < 15 && i < name@.len() ==> #[trigger] field@[i] == name@[i],
        forall|i: int| name@.len() <= i < 16 ==> #[trigger] field@[i] == 0,
        field@[15] == 0,
{
}

/// An interface gets its address and its MTU, where they are given, before it is
/// brought up; after that it is asked for its MAC address. A prefix that is too
/// long is refused.
pub proof fn interfaces_are_set_up_in_order(
    addr: Option<IpWithPrefix>,
    mtu: Option<u16>,
    result: Result<Vec<InterfaceStep>, Error>,
)
    requires
        call_ensures(plan_interface, (addr, mtu), result),
    ensures
        result is Err <==> (addr matches Some((ip, len)) && (ip is V4 && len > 32 || len > 128)),
        result matches Err(error) ==> error.kind == ErrorKind::Other && error.message@
            == "invalid IP prefix length"@,
        result matches Ok(steps) ==> {
            let first = if addr is Some {
                1int
            } else {
                0int
            };
            let count = first + if mtu is Some {
                1int
            } else {
                0int
            };
            &&& steps@.len() == count + 3
            &&& addr matches Some((ip, prefix_len)) ==> steps@[0] == (InterfaceStep::AddAddress {
                ip,
                prefix_len,
            })
            &&& mtu matches Some(mtu) ==> steps@[first] == (InterfaceStep::SetMtu { mtu })
            &&& steps@[count] == (InterfaceStep::SetTxQueueLen { len: 5000 })
            &&& steps@[count + 1] == InterfaceStep::BringUp
            &&& steps@[count + 2] == InterfaceStep::ReadMac
        },
{
}

} // verus!
