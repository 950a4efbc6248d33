//! Addresses as text.

use vstd::prelude::*;

use crate::addr::{IpAddr, Ipv4Addr, Ipv6Addr};
use crate::text;

verus! {

/// How IPv6 addresses are written: short, as one writes them by hand.
pub uninterp spec fn ipv6_text(bits: u128) -> Seq<char>;

/// The IPv6 address that a text writes, if it writes one.
pub uninterp spec fn ipv6_parsed(text: Seq<char>) -> Option<u128>;

/// `Display` of `smoltcp::wire::Ipv6Address`, which is the standard library's
/// IPv6 address: hexadecimal groups between colons. The text reads back as the
/// address.
#[verifier::external_body]
fn ipv6_to_text(bits: u128) -> (out: String)
    ensures
        out@ == ipv6_text(bits),
        ipv6_parsed(out@) == Some(bits),
        !out@.contains('/'),
        octets_read(out@) is None,
{
    format!("{}", smoltcp::wire::Ipv6Address::from(bits))
}

/// `FromStr` of `smoltcp::wire::Ipv6Address`, which is the standard library's
/// IPv6 address: every way of writing one down.
#[verifier::external_body]
fn ipv6_from_text(text: &str) -> (bits: Option<u128>)
    ensures
        bits == ipv6_parsed(text@),
{
    text.parse::<smoltcp::wire::Ipv6Address>().ok().map(|ip| ip.to_bits())
}

/// Octet `i` of an IPv4 address, from the left.
pub open spec fn octet(bits: u32, i: int) -> nat {
    if i == 0 {
        bits as nat / 0x100_0000
    } else if i == 1 {
        bits as nat / 0x1_0000 % 0x100
    } else if i == 2 {
        bits as nat / 0x100 % 0x100
    } else {
        bits as nat % 0x100
    }
}

/// An IPv4 address as four decimal numbers with dots between them.
pub open spec fn ipv4_text(bits: u32) -> Seq<char> {
    text::decimal(octet(bits, 0)) + seq!['.'] + text::decimal(octet(bits, 1)) + seq!['.']
        + text::decimal(octet(bits, 2)) + seq!['.'] + text::decimal(octet(bits, 3))
}

/// How an address is written.
pub open spec fn ip_text(ip: IpAddr) -> Seq<char> {
    match ip {
        IpAddr::V4(v4) => ipv4_text(v4.bits),
        IpAddr::V6(v6) => ipv6_text(v6.bits),
    }
}

/// Write an address. The text reads back as the address.
pub fn ip_to_text(ip: IpAddr) -> (out: String)
    ensures
        out@ == ip_text(ip),
        ip_read(out@) == Some(ip),
        !out@.contains('/'),
{
    match ip {
        IpAddr::V4(v4) => {
            let mut out = text::to_decimal((v4.bits / 0x100_0000) as u64);
            text::push_char(&mut out, '.');
            out.append(text::to_decimal((v4.bits / 0x1_0000 % 0x100) as u64).as_str());
            text::push_char(&mut out, '.');
            out.append(text::to_decimal((v4.bits / 0x100 % 0x100) as u64).as_str());
            text::push_char(&mut out, '.');
            out.append(text::to_decimal((v4.bits % 0x100) as u64).as_str());
            assert(out@ =~= ipv4_text(v4.bits));
            proof {
                ipv4_text_reads_back(v4.bits);
            }
            out
        },
        IpAddr::V6(v6) => ipv6_to_text(v6.bits),
    }
}

/// A number from 0 to 255 as it stands in an IPv4 address: digits only, without
/// leading zeros.
pub open spec fn octet_read(text: Seq<char>) -> Option<nat> {
    if text.len() > 0 && (text.len() == 1 || text[0] != '0') && text[0] != '+' {
        text::parsed(text, 255)
    } else {
        None
    }
}

/// The IPv4 address that a text writes, if it writes one.
pub open spec fn octets_read(text: Seq<char>) -> Option<u32> {
    let parts = text::split(text, '.');
    if parts.len() == 4 && octet_read(parts[0]) is Some && octet_read(parts[1]) is Some
        && octet_read(parts[2]) is Some && octet_read(parts[3]) is Some {
        Some(
            (0x100_0000 * octet_read(parts[0])->0 + 0x1_0000 * octet_read(parts[1])->0 + 0x100
                * octet_read(parts[2])->0 + octet_read(parts[3])->0) as u32,
        )
    } else {
        None
    }
}

/// The address of either family that a text writes, if it writes one.
pub open spec fn ip_read(text: Seq<char>) -> Option<IpAddr> {
    match octets_read(text) {
        Some(bits) => Some(IpAddr::V4(Ipv4Addr { bits })),
        None => match ipv6_parsed(text) {
            Some(bits) => Some(IpAddr::V6(Ipv6Addr { bits })),
            None => None,
        },
    }
}

fn parse_octet(part: &[char]) -> (value: Option<u64>)
    ensures
        match value {
            Some(v) => octet_read(part@) == Some(v as nat) && v <= 255,
            None => octet_read(part@) is None,
        },
{
    if part.len() == 0 || (part.len() > 1 && part[0] == '0') || part[0] == '+' {
        return None;
    }
    text::parse_number(part, 255)
}

fn parse_ipv4(text: &[char]) -> (bits: Option<u32>)
    ensures
        bits == octets_read(text@),
{
    let parts = text::split_at(text, '.');
    proof {
        assert forall|i: int| 0 <= i < parts@.len() implies (#[trigger] parts@[i])@ == text::split(
            text@,
            '.',
        )[i] by {
            assert(text::views(parts@)[i] == parts@[i]@);
        }
    }
    if parts.len() != 4 {
        return None;
    }
    let a = parse_octet(&parts[0]);
    let b = parse_octet(&parts[1]);
    let c = parse_octet(&parts[2]);
    let d = parse_octet(&parts[3]);
    match (a, b, c, d) {
        (Some(a), Some(b), Some(c), Some(d)) => {
            let bits: u64 = a * 0x100_0000 + b * 0x1_0000 + c * 0x100 + d;
            Some(bits as u32)
        },
        _ => None,
    }
}

/// Read an address.
pub fn parse_ip(text: &[char]) -> (ip: Option<IpAddr>)
    ensures
        ip == ip_read(text@),
{
    match parse_ipv4(text) {
        Some(bits) => Some(IpAddr::V4(Ipv4Addr { bits })),
        None => match ipv6_from_text(text::from_chars(text).as_str()) {
            Some(bits) => Some(IpAddr::V6(Ipv6Addr { bits })),
            None => None,
        },
    }
}

/// An address with the length of its subnet's prefix.
pub open spec fn ip_prefix_text(ip: IpAddr, prefix_len: u8) -> Seq<char> {
    ip_text(ip) + seq!['/'] + text::decimal(prefix_len as nat)
}

/// Write an address with the length of its subnet's prefix. A prefix that the
/// family can have reads back, and so does the address.
pub fn ip_prefix_to_text(ip: IpAddr, prefix_len: u8) -> (out: String)
    ensures
        out@ == ip_prefix_text(ip, prefix_len),
        prefix_len <= ip.max_prefix_len() ==> ip_prefix_read(out@) == Some((ip, prefix_len)),
{
    let mut out = ip_to_text(ip);
    proof {
        let prefix = text::decimal(prefix_len as nat);
        text::lemma_decimal_digits(prefix_len as nat);
        lemma_digits_do_not_contain(prefix_len as nat, '/');
        text::lemma_split_last(out@, prefix, '/');
        text::lemma_split_none(out@, '/');
        text::decimal_reads_back(prefix_len as nat, 255);
        assert(seq![out@].push(prefix) =~= text::split(out@ + seq!['/'] + prefix, '/'));
    }
    text::push_char(&mut out, '/');
    out.append(text::to_decimal(prefix_len as u64).as_str());
    assert(out@ =~= ip_prefix_text(ip, prefix_len));
    out
}

/// The address and prefix length that a text writes: the two with one slash
/// between them, and a prefix that the family can have.
pub open spec fn ip_prefix_read(text: Seq<char>) -> Option<(IpAddr, u8)> {
    let parts = text::split(text, '/');
    if parts.len() == 2 && ip_read(parts[0]) is Some && text::parsed(parts[1], 255) is Some
        && text::parsed(parts[1], 255)->0 <= ip_read(parts[0])->0.max_prefix_len() {
        Some((ip_read(parts[0])->0, text::parsed(parts[1], 255)->0 as u8))
    } else {
        None
    }
}

/// Read an address with the length of its subnet's prefix.
pub fn parse_ip_prefix(s: &str) -> (result: Option<(IpAddr, u8)>)
    ensures
        result == ip_prefix_read(s@),
{
    let chars = text::to_chars(s);
    let parts = text::split_at(&chars, '/');
    proof {
        assert forall|i: int| 0 <= i < parts@.len() implies (#[trigger] parts@[i])@ == text::split(
            s@,
            '/',
        )[i] by {
            assert(text::views(parts@)[i] == parts@[i]@);
        }
    }
    if parts.len() != 2 {
        return None;
    }
    let ip = match parse_ip(&parts[0]) {
        Some(ip) => ip,
        None => {
            return None;
        },
    };
    let prefix: u64 = match text::parse_number(&parts[1], 255) {
        Some(prefix) => prefix,
        None => {
            return None;
        },
    };
    if prefix > ip.max_prefix_len() as u64 {
        return None;
    }
    Some((ip, prefix as u8))
}

proof fn lemma_digits_do_not_contain(value: nat, c: char)
    requires
        !text::is_digit(c),
    ensures
        !text::decimal(value).contains(c),
{
    text::lemma_decimal_digits(value);
}

proof fn lemma_octet_reads_back(value: nat)
    requires
        value <= 255,
    ensures
        octet_read(text::decimal(value)) == Some(value),
{
    text::lemma_decimal_digits(value);
    text::decimal_reads_back(value, 255);
    text::lemma_no_leading_zero(value);
    assert(text::is_digit(text::decimal(value)[0]));
}

/// An IPv4 address reads back as what it was written from.
pub proof fn ipv4_text_reads_back(bits: u32)
    ensures
        octets_read(ipv4_text(bits)) == Some(bits),
        !ipv4_text(bits).contains('/'),
{
    let a = text::decimal(octet(bits, 0));
    let b = text::decimal(octet(bits, 1));
    let c = text::decimal(octet(bits, 2));
    let d = text::decimal(octet(bits, 3));
    lemma_digits_do_not_contain(octet(bits, 0), '.');
    lemma_digits_do_not_contain(octet(bits, 1), '.');
    lemma_digits_do_not_contain(octet(bits, 2), '.');
    lemma_digits_do_not_contain(octet(bits, 3), '.');
    text::lemma_split_none(a, '.');
    text::lemma_split_last(a, b, '.');
    text::lemma_split_last(a + seq!['.'] + b, c, '.');
    text::lemma_split_last(a + seq!['.'] + b + seq!['.'] + c, d, '.');
    assert(text::split(ipv4_text(bits), '.') =~= seq![a, b, c, d]);
    lemma_octet_reads_back(octet(bits, 0));
    lemma_octet_reads_back(octet(bits, 1));
    lemma_octet_reads_back(octet(bits, 2));
    lemma_octet_reads_back(octet(bits, 3));
    lemma_digits_do_not_contain(octet(bits, 0), '/');
    lemma_digits_do_not_contain(octet(bits, 1), '/');
    lemma_digits_do_not_contain(octet(bits, 2), '/');
    lemma_digits_do_not_contain(octet(bits, 3), '/');
    let whole = ipv4_text(bits);
    if whole.contains('/') {
        let i = choose|i: int| 0 <= i < whole.len() && whole[i] == '/';
        let la = a.len() as int;
        let lb = la + 1 + b.len();
        let lc = lb + 1 + c.len();
        if i < la {
            assert(a[i] == '/');
        } else if i == la {
        } else if i < lb {
            assert(b[i - la - 1] == '/');
        } else if i == lb {
        } else if i < lc {
            assert(c[i - lb - 1] == '/');
        } else if i == lc {
        } else {
            assert(d[i - lc - 1] == '/');
        }
    }
}

/// An IPv4 address is written as its four octets in decimal, from the highest to
/// the lowest, with dots between them.
pub proof fn ipv4_is_written_in_octets(
    ip: Ipv4Addr,
    out: String,
    a: String,
    b: String,
    c: String,
    d: String,
)
    requires
        call_ensures(ip_to_text, (IpAddr::V4(ip),), out),
        call_ensures(text::to_decimal, ((ip.bits / 0x100_0000) as u64,), a),
        call_ensures(text::to_decimal, ((ip.bits / 0x1_0000 % 0x100) as u64,), b),
        call_ensures(text::to_decimal, ((ip.bits / 0x100 % 0x100) as u64,), c),
        call_ensures(text::to_decimal, ((ip.bits % 0x100) as u64,), d),
    ensures
        out@ == a@ + seq!['.'] + b@ + seq!['.'] + c@ + seq!['.'] + d@,
{
}

/// An address reads back from its text, and so it does with a prefix behind it,
/// where the family has prefixes of that length. Longer ones are refused.
pub proof fn addresses_read_back(
    ip: IpAddr,
    out: String,
    chars: &[char],
    read: Option<IpAddr>,
    len: u64,
    digits: String,
    s: &str,
    with_prefix: Option<(IpAddr, u8)>,
)
    requires
        call_ensures(ip_to_text, (ip,), out),
        chars@ == out@,
        call_ensures(parse_ip, (chars,), read),
        call_ensures(text::to_decimal, (len,), digits),
        s@ == out@ + seq!['/'] + digits@,
        call_ensures(parse_ip_prefix, (s,), with_prefix),
    ensures
        read == Some(ip),
        ip is V4 && len <= 32 || ip is V6 && len <= 128 ==> with_prefix == Some((ip, len as u8)),
        ip is V4 && len > 32 || len > 128 ==> with_prefix is None,
{
    let prefix = text::decimal(len as nat);
    text::lemma_decimal_digits(len as nat);
    lemma_digits_do_not_contain(len as nat, '/');
    text::lemma_split_last(out@, prefix, '/');
    text::lemma_split_none(out@, '/');
    assert(text::split(s@, '/') =~= seq![out@, prefix]);
    if len <= 255 {
        text::decimal_reads_back(len as nat, 255);
    } else {
        assert(text::is_digit(prefix[0]));
        assert(text::after_plus(prefix) == prefix);
    }
}

/// What is written for an address and its prefix is the address, a slash, and
/// the prefix.
pub proof fn prefixes_stand_behind_a_slash(
    ip: IpAddr,
    prefix_len: u8,
    out: String,
    address: String,
    digits: String,
)
    requires
        call_ensures(ip_prefix_to_text, (ip, prefix_len), out),
        call_ensures(ip_to_text, (ip,), address),
        call_ensures(text::to_decimal, (prefix_len as u64,), digits),
    ensures
        out@ == address@ + seq!['/'] + digits@,
        !address@.contains('/'),
{
}

/// Whatever is read has a prefix that its family can have, and no text without a
/// slash is read.
pub proof fn prefixes_are_within_the_family(s: &str, result: Option<(IpAddr, u8)>)
    requires
        call_ensures(parse_ip_prefix, (s,), result),
    ensures
        result matches Some((ip, len)) ==> (ip is V4 ==> len <= 32) && (ip is V6 ==> len <= 128),
        !s@.contains('/') ==> result is None,
{
    if !s@.contains('/') {
        text::lemma_split_none(s@, '/');
    }
}

/// The parts with separators between them.
spec fn rejoined(parts: Seq<Seq<char>>, separator: char) -> Seq<char>
    decreases parts.len(),
{
    if parts.len() == 0 {
        Seq::empty()
    } else if parts.len() == 1 {
        parts[0]
    } else {
        rejoined(parts.drop_last(), separator) + seq![separator] + parts.last()
    }
}

proof fn lemma_rejoined(text: Seq<char>, separator: char)
    ensures
        text::split(text, separator).len() > 0,
        rejoined(text::split(text, separator), separator) == text,
    decreases text.len(),
{
    let parts = text::split(text, separator);
    if text.len() > 0 {
        let init = text.drop_last();
        let rest = text::split(init, separator);
        lemma_rejoined(init, separator);
        if text.last() == separator {
            assert(parts.drop_last() =~= rest);
            assert(rejoined(parts, separator) =~= text);
        } else {
            let c = text.last();
            assert(parts == rest.drop_last().push(rest.last().push(c)));
            assert(parts.drop_last() =~= rest.drop_last());
            assert(parts.last() == rest.last().push(c));
            if rest.len() == 1 {
                assert(parts[0] == rest[0].push(c));
                assert(rejoined(parts, separator) =~= text);
            } else {
                assert(rejoined(rest, separator) == rejoined(rest.drop_last(), separator)
                    + seq![separator] + rest.last());
                assert(rejoined(parts, separator) =~= rejoined(rest, separator).push(c));
                assert(rejoined(parts, separator) =~= text);
            }
        }
    } else {
        assert(rejoined(parts, separator) =~= text);
    }
}

proof fn lemma_digits_canonical(digits: Seq<char>)
    requires
        digits.len() > 0,
        forall|i: int| 0 <= i < digits.len() ==> text::is_digit(#[trigger] digits[i]),
        digits.len() == 1 || digits[0] != '0',
    ensures
        digits == text::decimal(text::digits_value(digits)),
        digits[0] != '0' ==> text::digits_value(digits) > 0,
    decreases digits.len(),
{
    let init = digits.drop_last();
    let c = digits.last();
    assert(c == digits[digits.len() - 1]);
    if init.len() == 0 {
        assert(text::digits_value(init) == 0);
        assert(digits =~= text::decimal(text::digits_value(digits)));
    } else {
        assert(init[0] == digits[0]);
        assert forall|i: int| 0 <= i < init.len() implies text::is_digit(#[trigger] init[i]) by {
            assert(init[i] == digits[i]);
        }
        lemma_digits_canonical(init);
        assert(digits =~= text::decimal(text::digits_value(digits)));
    }
}

proof fn lemma_octet_canonical(part: Seq<char>)
    requires
        octet_read(part) is Some,
    ensures
        part == text::decimal(octet_read(part)->0),
        octet_read(part)->0 <= 255,
{
    assert(text::after_plus(part) == part);
    lemma_digits_canonical(part);
}

/// A text that reads as an IPv4 address is the one that the address is written as:
/// four numbers up to 255 with three dots, without signs or leading zeros.
pub proof fn ipv4_addresses_have_one_text(chars: &[char], ip: Ipv4Addr, out: String)
    requires
        call_ensures(parse_ip, (chars,), Some(IpAddr::V4(ip))),
        call_ensures(ip_to_text, (IpAddr::V4(ip),), out),
    ensures
        chars@ == out@,
{
    let parts = text::split(chars@, '.');
    assert(octets_read(chars@) == Some(ip.bits));
    lemma_rejoined(chars@, '.');
    lemma_octet_canonical(parts[0]);
    lemma_octet_canonical(parts[1]);
    lemma_octet_canonical(parts[2]);
    lemma_octet_canonical(parts[3]);
    lemma_rejoined_four(parts, '.');
    lemma_octets_of(
        octet_read(parts[0])->0,
        octet_read(parts[1])->0,
        octet_read(parts[2])->0,
        octet_read(parts[3])->0,
    );
}

proof fn lemma_rejoined_four(parts: Seq<Seq<char>>, separator: char)
    requires
        parts.len() == 4,
    ensures
        rejoined(parts, separator) == parts[0] + seq![separator] + parts[1] + seq![separator]
            + parts[2] + seq![separator] + parts[3],
{
    let three = parts.drop_last();
    let two = three.drop_last();
    let one = two.drop_last();
    assert(rejoined(one, separator) == parts[0]);
    assert(rejoined(two, separator) == parts[0] + seq![separator] + parts[1]);
    assert(rejoined(three, separator) == parts[0] + seq![separator] + parts[1] + seq![separator]
        + parts[2]);
}

proof fn lemma_octets_of(a: nat, b: nat, c: nat, d: nat)
    requires
        a <= 255,
        b <= 255,
        c <= 255,
        d <= 255,
    ensures
        ({
            let bits = (0x100_0000 * a + 0x1_0000 * b + 0x100 * c + d) as u32;
            octet(bits, 0) == a && octet(bits, 1) == b && octet(bits, 2) == c && octet(bits, 3) == d
        }),
{
    let (a, b, c, d) = (a as int, b as int, c as int, d as int);
    let n = 0x100_0000 * a + 0x1_0000 * b + 0x100 * c + d;
    vstd::arithmetic::div_mod::lemma_fundamental_div_mod_converse(
        n,
        0x100_0000,
        a,
        0x1_0000 * b + 0x100 * c + d,
    );
    vstd::arithmetic::div_mod::lemma_fundamental_div_mod_converse(
        n,
        0x1_0000,
        0x100 * a + b,
        0x100 * c + d,
    );
    vstd::arithmetic::div_mod::lemma_fundamental_div_mod_converse(
        n,
        0x100,
        0x1_0000 * a + 0x100 * b + c,
        d,
    );
    vstd::arithmetic::div_mod::lemma_fundamental_div_mod_converse(
        0x100 * a + b,
        0x100,
        a,
        b,
    );
    vstd::arithmetic::div_mod::lemma_fundamental_div_mod_converse(
        0x1_0000 * a + 0x100 * b + c,
        0x100,
        0x100 * a + b,
        c,
    );
}

/// An address with its prefix is read just where a single slash has an address in
/// front of it and a number behind it that the family can have as a prefix.
pub proof fn one_slash_parts_address_and_prefix(
    s: &str,
    result: Option<(IpAddr, u8)>,
    front: &[char],
    back: &[char],
    ip: Option<IpAddr>,
    number: Option<u64>,
)
    requires
        call_ensures(parse_ip_prefix, (s,), result),
        s@ == front@ + seq!['/'] + back@,
        !back@.contains('/'),
        call_ensures(parse_ip, (front,), ip),
        call_ensures(text::parse_number, (back, 255), number),
    ensures
        front@.contains('/') ==> result is None,
        !front@.contains('/') ==> match (ip, number) {
            (Some(ip), Some(number)) => if number <= (if ip is V4 {
                32int
            } else {
                128int
            }) {
                result == Some((ip, number as u8))
            } else {
                result is None
            },
            _ => result is None,
        },
{
    text::lemma_split_last(front@, back@, '/');
    if front@.contains('/') {
        lemma_split_more(front@, '/');
    } else {
        text::lemma_split_none(front@, '/');
        assert(text::split(s@, '/') =~= seq![front@, back@]);
    }
}

proof fn lemma_split_more(content: Seq<char>, separator: char)
    requires
        content.contains(separator),
    ensures
        text::split(content, separator).len() >= 2,
    decreases content.len(),
{
    let i = choose|i: int| 0 <= i < content.len() && content[i] == separator;
    let init = content.drop_last();
    lemma_rejoined(init, separator);
    if content.last() != separator {
        assert(init[i] == separator);
        lemma_split_more(init, separator);
    }
}

/// A text that is not read as an IPv4 address is read as IPv6 addresses are.
pub proof fn other_texts_are_read_as_ipv6(chars: &[char], ip: Option<IpAddr>)
    requires
        call_ensures(parse_ip, (chars,), ip),
    ensures
        !(ip matches Some(IpAddr::V4(_))) ==> match ipv6_parsed(chars@) {
            Some(bits) => ip == Some(IpAddr::V6(Ipv6Addr { bits })),
            None => ip is None,
        },
{
}

} // verus!
