//! Datagrams with their address, as one message.
//!
//! Layout: a tag (4 or 6), the octets of the address, the port (little-endian),
//! the data.

use vstd::prelude::*;

use crate::addr::{IpAddr, Ipv4Addr, Ipv6Addr, SocketAddr};
use crate::bytes;
use crate::error::{invalid_data, Error, ErrorKind};
use crate::text;

verus! {

/// The address in front of the data.
pub open spec fn header(addr: SocketAddr) -> Seq<u8> {
    match addr {
        SocketAddr::V4(v4) => seq![4u8] + bytes::be_bytes(v4.ip.bits as nat, 4) + bytes::le_bytes(
            v4.port as nat,
            2,
        ),
        SocketAddr::V6(v6) => seq![6u8] + bytes::be_bytes(v6.ip.bits as nat, 16) + bytes::le_bytes(
            v6.port as nat,
            2,
        ),
    }
}

/// A datagram with its address.
pub open spec fn message(addr: SocketAddr, data: Seq<u8>) -> Seq<u8> {
    header(addr) + data
}

/// What a message needs at least.
pub open spec fn header_len(tag: u8) -> int {
    if tag == 4 {
        7
    } else {
        19
    }
}

/// What is wrong with a message, if anything.
pub open spec fn fault(buf: Seq<u8>) -> Option<Seq<char>> {
    if buf.len() == 0 {
        Some("empty message"@)
    } else if buf[0] != 4 && buf[0] != 6 {
        Some("invalid address tag: "@ + text::decimal(buf[0] as nat))
    } else if buf.len() < header_len(buf[0]) {
        Some("message too short"@)
    } else {
        None
    }
}

/// Put the address in front of the data. Flow label and scope of an IPv6
/// address are left out.
pub fn encode_udp_message(addr: SocketAddr, data: &[u8]) -> (buf: Vec<u8>)
    ensures
        buf@ == message(addr, data@),
{
    let mut buf: Vec<u8> = Vec::new();
    match addr {
        SocketAddr::V4(v4) => {
            buf.push(4);
            bytes::append(&mut buf, v4.ip.octets().as_slice());
            bytes::append(&mut buf, bytes::to_le_bytes(v4.port as u128, 2).as_slice());
        },
        SocketAddr::V6(v6) => {
            buf.push(6);
            bytes::append(&mut buf, v6.ip.octets().as_slice());
            bytes::append(&mut buf, bytes::to_le_bytes(v6.port as u128, 2).as_slice());
        },
    }
    assert(buf@ =~= header(addr));
    bytes::append(&mut buf, data);
    buf
}

fn port_at(buf: &[u8], at: usize) -> (port: u16)
    requires
        at + 2 <= buf@.len(),
    ensures
        port == bytes::le_value(buf@.subrange(at as int, at + 2)),
{
    let len: usize = buf.len();
    assert(at + 2 <= len);
    let field = bytes::copy_range(buf, at, at + 2);
    proof {
        bytes::le_value_written_back(field@);
        bytes::lemma_byte_range_values();
    }
    bytes::from_le_bytes(&field) as u16
}

/// Take the address off the data.
pub fn decode_udp_message(buf: &[u8]) -> (result: Result<(SocketAddr, Vec<u8>), Error>)
    ensures
        match result {
            Ok((addr, data)) => {
                &&& fault(buf@) is None
                &&& buf@ == message(addr, data@)
                &&& addr == SocketAddr::spec_new(addr.spec_ip(), addr.spec_port())
            },
            Err(error) => fault(buf@) is Some && error.reads(
                ErrorKind::InvalidData,
                fault(buf@)->0,
            ),
        },
{
    if buf.len() == 0 {
        return Err(invalid_data("empty message"));
    }
    let tag: u8 = buf[0];
    let octets_len: usize = if tag == 4 {
        4
    } else if tag == 6 {
        16
    } else {
        let message = text::join("invalid address tag: ", text::to_decimal(tag as u64).as_str());
        return Err(invalid_data(message.as_str()));
    };
    if buf.len() < octets_len + 3 {
        return Err(invalid_data("message too short"));
    }
    let octets = bytes::copy_range(buf, 1, 1 + octets_len);
    let port: u16 = port_at(buf, 1 + octets_len);
    let ip = if tag == 4 {
        IpAddr::V4(Ipv4Addr::from_octets(&octets))
    } else {
        IpAddr::V6(Ipv6Addr::from_octets(&octets))
    };
    let addr = SocketAddr::new(ip, port);
    let data = bytes::copy_range(buf, octets_len + 3, buf.len());
    proof {
        bytes::be_value_written_back(octets@);
        bytes::le_value_written_back(buf@.subrange(1 + octets_len, octets_len + 3));
        assert(buf@ =~= message(addr, data@));
    }
    Ok((addr, data))
}

/// Decoding gives back what was encoded: the address but for flow label and
/// scope, and the data.
pub proof fn encoded_datagram_decodes(
    addr: SocketAddr,
    data: Seq<u8>,
    decoded: SocketAddr,
    rest: Seq<u8>,
)
    requires
        message(addr, data) == message(decoded, rest),
        decoded == SocketAddr::spec_new(decoded.spec_ip(), decoded.spec_port()),
    ensures
        fault(message(addr, data)) is None,
        decoded == SocketAddr::spec_new(addr.spec_ip(), addr.spec_port()),
        rest == data,
{
    let whole = message(addr, data);
    let again = message(decoded, rest);
    lemma_header(addr);
    lemma_header(decoded);
    assert(whole[0] == header(addr)[0]);
    assert(again[0] == header(decoded)[0]);
    let len = header(addr).len() as int;
    assert(header(decoded).len() == len);
    assert(whole.subrange(1, len - 2) =~= header(addr).subrange(1, len - 2));
    assert(again.subrange(1, len - 2) =~= header(decoded).subrange(1, len - 2));
    assert(whole.subrange(len - 2, len) =~= header(addr).subrange(len - 2, len));
    assert(again.subrange(len - 2, len) =~= header(decoded).subrange(len - 2, len));
    assert(whole.skip(len) =~= data);
    assert(again.skip(len) =~= rest);
}

proof fn lemma_header(addr: SocketAddr)
    ensures
        match addr {
            SocketAddr::V4(v4) => {
                &&& header(addr).len() == 7
                &&& header(addr)[0] == 4
                &&& bytes::be_value(header(addr).subrange(1, 5)) == v4.ip.bits
                &&& bytes::le_value(header(addr).subrange(5, 7)) == v4.port
            },
            SocketAddr::V6(v6) => {
                &&& header(addr).len() == 19
                &&& header(addr)[0] == 6
                &&& bytes::be_value(header(addr).subrange(1, 17)) == v6.ip.bits
                &&& bytes::le_value(header(addr).subrange(17, 19)) == v6.port
            },
        },
{
    bytes::lemma_byte_range_values();
    match addr {
        SocketAddr::V4(v4) => {
            bytes::be_bytes_read_back(v4.ip.bits as nat, 4);
            bytes::le_bytes_read_back(v4.port as nat, 2);
            assert(header(addr).subrange(1, 5) =~= bytes::be_bytes(v4.ip.bits as nat, 4));
            assert(header(addr).subrange(5, 7) =~= bytes::le_bytes(v4.port as nat, 2));
        },
        SocketAddr::V6(v6) => {
            bytes::be_bytes_read_back(v6.ip.bits as nat, 16);
            bytes::le_bytes_read_back(v6.port as nat, 2);
            assert(header(addr).subrange(1, 17) =~= bytes::be_bytes(v6.ip.bits as nat, 16));
            assert(header(addr).subrange(17, 19) =~= bytes::le_bytes(v6.port as nat, 2));
        },
    }
}

/// A datagram's message has the tag of its family, the octets of the address, the
/// port with its lower byte first, and the data.
pub proof fn datagrams_stand_behind_their_address(
    addr: SocketAddr,
    data: &[u8],
    buf: Vec<u8>,
)
    requires
        call_ensures(encode_udp_message, (addr, data), buf),
    ensures
        addr matches SocketAddr::V4(v4) ==> {
            &&& buf@.len() == 7 + data@.len()
            &&& buf@[0] == 4
            &&& 0x100_0000 * buf@[1] + 0x1_0000 * buf@[2] + 0x100 * buf@[3] + buf@[4] == v4.ip.bits
            &&& buf@[5] + 0x100 * buf@[6] == v4.port
            &&& buf@.skip(7) == data@
        },
        addr matches SocketAddr::V6(v6) ==> {
            &&& buf@.len() == 19 + data@.len()
            &&& buf@[0] == 6
            &&& bytes::be_value(buf@.subrange(1, 17)) == v6.ip.bits
            &&& buf@[17] + 0x100 * buf@[18] == v6.port
            &&& buf@.skip(19) == data@
        },
{
    lemma_header(addr);
    let len = header(addr).len() as int;
    assert(buf@.take(len) =~= header(addr));
    assert(buf@.skip(len) =~= data@);
    bytes::two_bytes_spell(header(addr).subrange(len - 2, len));
    match addr {
        SocketAddr::V4(_) => {
            bytes::four_bytes_spell(header(addr).subrange(1, 5));
        },
        SocketAddr::V6(_) => {
            assert(buf@.subrange(1, 17) =~= header(addr).subrange(1, 17));
        },
    }
}

/// What is read from a message is what its bytes say, in the same places. It is
/// refused where the tag is another, or where there is too little.
pub proof fn addresses_are_read_from_their_bytes(
    buf: &[u8],
    result: Result<(SocketAddr, Vec<u8>), Error>,
)
    requires
        call_ensures(decode_udp_message, (buf,), result),
    ensures
        result is Ok <==> buf@.len() >= 7 && buf@[0] == 4 || buf@.len() >= 19 && buf@[0] == 6,
        result matches Err(error) ==> error.kind == ErrorKind::InvalidData,
        result matches Ok((addr, data)) ==> {
            &&& addr is V4 <==> buf@[0] == 4
            &&& addr matches SocketAddr::V4(v4) ==> {
                &&& v4.ip.bits == 0x100_0000 * buf@[1] + 0x1_0000 * buf@[2] + 0x100 * buf@[3]
                    + buf@[4]
                &&& v4.port == buf@[5] + 0x100 * buf@[6]
                &&& data@ == buf@.skip(7)
            }
            &&& addr matches SocketAddr::V6(v6) ==> {
                &&& v6.ip.bits == bytes::be_value(buf@.subrange(1, 17))
                &&& v6.port == buf@[17] + 0x100 * buf@[18]
                &&& v6.flowinfo == 0 && v6.scope_id == 0
                &&& data@ == buf@.skip(19)
            }
        },
{
    match result {
        Ok((addr, data)) => {
            lemma_header(addr);
            let len = header(addr).len() as int;
            assert(buf@.take(len) =~= header(addr));
            assert(buf@[0] == header(addr)[0]);
            assert(buf@.skip(len) =~= data@);
            bytes::two_bytes_spell(header(addr).subrange(len - 2, len));
            match addr {
                SocketAddr::V4(_) => {
                    bytes::four_bytes_spell(header(addr).subrange(1, 5));
                },
                SocketAddr::V6(_) => {
                    assert(buf@.subrange(1, 17) =~= header(addr).subrange(1, 17));
                },
            }
        },
        Err(_) => {},
    }
}

/// Decoding gives back the address and the data that were encoded.
pub proof fn datagrams_read_back(
    ip: IpAddr,
    port: u16,
    data: &[u8],
    buf: Vec<u8>,
    slice: &[u8],
    result: Result<(SocketAddr, Vec<u8>), Error>,
)
    requires
        call_ensures(encode_udp_message, (SocketAddr::spec_new(ip, port), data), buf),
        slice@ == buf@,
        call_ensures(decode_udp_message, (slice,), result),
    ensures
        result matches Ok((addr, again)) && addr.spec_ip() == ip && addr.spec_port() == port
            && again@ == data@,
{
    let addr = SocketAddr::spec_new(ip, port);
    lemma_header(addr);
    assert(buf@[0] == header(addr)[0]);
    match result {
        Ok((decoded, again)) => {
            encoded_datagram_decodes(addr, data@, decoded, again@);
        },
        Err(_) => {},
    }
}

/// A message that is refused is told apart: an empty one, one of an unknown family,
/// and one that is too short for its address.
pub proof fn refused_messages_are_told_apart(
    buf: &[u8],
    result: Result<(SocketAddr, Vec<u8>), Error>,
)
    requires
        call_ensures(decode_udp_message, (buf,), result),
    ensures
        buf@.len() == 0 ==> (result matches Err(error) && error.message@ == "empty message"@),
        buf@.len() > 0 && buf@[0] != 4 && buf@[0] != 6 ==> (result matches Err(error)
            && error.message@ == "invalid address tag: "@ + text::decimal(buf@[0] as nat)),
        buf@.len() > 0 && (buf@[0] == 4 && buf@.len() < 7 || buf@[0] == 6 && buf@.len() < 19) ==> (
        result matches Err(error) && error.message@ == "message too short"@),
{
}

} // verus!
