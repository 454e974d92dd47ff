//! Internet addresses: their notation, and which ones notifications may go to.
use vstd::prelude::*;

use crate::{decimal, encode, search, text};
use crate::decimal::to_decimal;
use crate::encode::small_hex_digit;
use crate::search::split;
use crate::text::{same, trim};

verus! {

/// An address: the four bytes of one, or the eight groups of 16 bits of the
/// other kind.
#[derive(Debug, Clone, Copy)]
pub enum IpBits {
    V4([u8; 4]),
    V6([u16; 8]),
}

/// The number that four bytes write.
pub open spec fn v4_number(a: int, b: int, c: int, d: int) -> int {
    ((a * 256 + b) * 256 + c) * 256 + d
}

/// Whether an address of four bytes is in one of the blocks that are not on the
/// open internet: 0/8, 10/8, 100.64/10, 127/8, 169.254/16, 172.16/12,
/// 192.0.0/24, 192.0.2/24, 192.168/16, 198.18/15, 198.51.100/24, 203.0.113/24,
/// and all from 224.0.0.0 on.
pub open spec fn v4_is_inner(n: int) -> bool {
    ||| n < v4_number(1, 0, 0, 0)
    ||| v4_number(10, 0, 0, 0) <= n < v4_number(11, 0, 0, 0)
    ||| v4_number(100, 64, 0, 0) <= n < v4_number(100, 128, 0, 0)
    ||| v4_number(127, 0, 0, 0) <= n < v4_number(128, 0, 0, 0)
    ||| v4_number(169, 254, 0, 0) <= n < v4_number(169, 255, 0, 0)
    ||| v4_number(172, 16, 0, 0) <= n < v4_number(172, 32, 0, 0)
    ||| v4_number(192, 0, 0, 0) <= n < v4_number(192, 0, 1, 0)
    ||| v4_number(192, 0, 2, 0) <= n < v4_number(192, 0, 3, 0)
    ||| v4_number(192, 168, 0, 0) <= n < v4_number(192, 169, 0, 0)
    ||| v4_number(198, 18, 0, 0) <= n < v4_number(198, 20, 0, 0)
    ||| v4_number(198, 51, 100, 0) <= n < v4_number(198, 51, 101, 0)
    ||| v4_number(203, 0, 113, 0) <= n < v4_number(203, 0, 114, 0)
    ||| n >= v4_number(224, 0, 0, 0)
}

/// Whether a notification may go to an address of four bytes.
pub fn ipv4_allowed(o: [u8; 4]) -> (r: bool)
    ensures
        r == !v4_is_inner(v4_number(o@[0] as int, o@[1] as int, o@[2] as int, o@[3] as int)),
{
    let (a, b, c): (u8, u8, u8) = (o[0], o[1], o[2]);
    !(a == 0 || a == 10 || a == 127 || a >= 224 || (a == 100 && b >= 64 && b < 128) || (a == 169
        && b == 254) || (a == 172 && b >= 16 && b < 32) || (a == 192 && b == 168) || (a == 192 && b
        == 0 && (c == 0 || c == 2)) || (a == 198 && (b == 18 || b == 19)) || (a == 198 && b == 51
        && c == 100) || (a == 203 && b == 0 && c == 113))
}

/// Whether the groups of an address from the one at `from` up to the one at
/// `to` are zero.
pub open spec fn zero_groups(g: Seq<u16>, from: int, to: int) -> bool {
    forall|i: int| from <= i < to ==> #[trigger] g[i] == 0
}

/// Whether an address of eight groups is one that is not on the open internet:
/// the unspecified one and the loopback one, the mapped ones ::ffff:0:0/96, the
/// translated ones 64:ff9b::/96, 100::/64, the first two blocks of 2001::/16,
/// 2001:db8::/32, the unique local ones fc00::/7, the local ones of a link
/// fe80::/10 and ff00::/8.
pub open spec fn v6_is_inner(g: Seq<u16>) -> bool {
    ||| zero_groups(g, 0, 7) && g[7] <= 1
    ||| zero_groups(g, 0, 5) && g[5] == 0xffff
    ||| g[0] == 0x64 && g[1] == 0xff9b && zero_groups(g, 2, 6)
    ||| g[0] == 0x100 && zero_groups(g, 1, 4)
    ||| g[0] == 0x2001 && g[1] <= 1
    ||| g[0] == 0x2001 && g[1] == 0xdb8
    ||| 0xfc00 <= g[0] < 0xfe00
    ||| 0xfe80 <= g[0] < 0xfec0
    ||| 0xff00 <= g[0]
}

fn groups_are_zero(g: &[u16; 8], from: usize, to: usize) -> (r: bool)
    requires
        from <= to <= 8,
    ensures
        r == zero_groups(g@, from as int, to as int),
{
    let mut i: usize = from;
    while i < to
        invariant
            from <= i <= to <= 8,
            zero_groups(g@, from as int, i as int),
        decreases to - i,
    {
        if g[i] != 0 {
            return false;
        }
        i += 1;
    }
    true
}

/// Whether a notification may go to an address of eight groups.
pub fn ipv6_allowed(g: [u16; 8]) -> (r: bool)
    ensures
        r == !v6_is_inner(g@),
{
    !((groups_are_zero(&g, 0, 7) && g[7] <= 1) || (groups_are_zero(&g, 0, 5) && g[5] == 0xffff) || (
    g[0] == 0x64 && g[1] == 0xff9b && groups_are_zero(&g, 2, 6)) || (g[0] == 0x100
        && groups_are_zero(&g, 1, 4)) || (g[0] == 0x2001 && g[1] <= 1) || (g[0] == 0x2001 && g[1]
        == 0xdb8) || (g[0] >= 0xfc00 && g[0] < 0xfe00) || (g[0] >= 0xfe80 && g[0] < 0xfec0) || g[0]
        >= 0xff00)
}

/// Whether a notification may go to an address.
pub open spec fn is_open(ip: IpBits) -> bool {
    match ip {
        IpBits::V4(o) => !v4_is_inner(
            v4_number(o@[0] as int, o@[1] as int, o@[2] as int, o@[3] as int),
        ),
        IpBits::V6(g) => !v6_is_inner(g@),
    }
}

/// Whether a notification may go to an address.
pub fn notification_ip_allowed(ip: IpBits) -> (r: bool)
    ensures
        r == is_open(ip),
{
    match ip {
        IpBits::V4(o) => ipv4_allowed(o),
        IpBits::V6(g) => ipv6_allowed(g),
    }
}

/// Whether a notification may go to a name with these addresses.
pub open spec fn all_open(addresses: Seq<IpBits>) -> bool {
    addresses.len() > 0 && forall|i: int|
        0 <= i < addresses.len() ==> is_open(#[trigger] addresses[i])
}

/// Whether a notification may go to a name with these addresses: there is one,
/// and all of them are open.
pub fn addresses_allowed(addresses: &[IpBits]) -> (r: bool)
    ensures
        r == all_open(addresses@),
{
    let mut i: usize = 0;
    while i < addresses.len()
        invariant
            i <= addresses@.len(),
            forall|k: int| 0 <= k < i ==> is_open(#[trigger] addresses@[k]),
        decreases addresses@.len() - i,
    {
        if !notification_ip_allowed(addresses[i]) {
            proof {
                assert(!is_open(addresses@[i as int]));
            }
            return false;
        }
        i += 1;
    }
    addresses.len() > 0
}

/// A group of 16 bits in hexadecimal digits, without leading zeros.
pub open spec fn group_text(n: int) -> Seq<char>
    decreases n,
{
    if n < 16 {
        seq![encode::small_hex(n)]
    } else {
        group_text(n / 16).push(encode::small_hex(n % 16))
    }
}

fn show_group(n: u16) -> (r: String)
    ensures
        r@ == group_text(n as int),
    decreases n,
{
    if n < 16 {
        let mut out = String::new();
        out.push(small_hex_digit(n as u8));
        proof {
            assert(out@ =~= seq![encode::small_hex(n as int)]);
        }
        out
    } else {
        let mut out = show_group(n / 16);
        out.push(small_hex_digit((n % 16) as u8));
        out
    }
}

/// An address as it is shown to guests: its second half is hidden.
pub open spec fn hidden_half(ip: Option<IpBits>) -> Seq<char> {
    match ip {
        Some(IpBits::V4(o)) => decimal::decimal(o@[0] as nat) + "."@ + decimal::decimal(o@[1] as nat) + "."@
            + decimal::decimal(o@[2] as nat) + ".*"@,
        Some(IpBits::V6(g)) => group_text(g@[0] as int) + ":"@ + group_text(g@[1] as int) + ":"@
            + group_text(g@[2] as int) + ":"@ + group_text(g@[3] as int) + ":****:****:****:****"@,
        None => seq![],
    }
}

/// An address as it is shown to guests; what is no address is not shown.
pub fn desensitize_ip(ip: Option<IpBits>) -> (r: String)
    ensures
        r@ == hidden_half(ip),
{
    match ip {
        Some(IpBits::V4(o)) => {
            let mut out = to_decimal(o[0] as u64);
            let b = to_decimal(o[1] as u64);
            let c = to_decimal(o[2] as u64);
            out.append(".");
            out.append(b.as_str());
            out.append(".");
            out.append(c.as_str());
            out.append(".*");
            out
        },
        Some(IpBits::V6(g)) => {
            let mut out = show_group(g[0]);
            let b = show_group(g[1]);
            let c = show_group(g[2]);
            let d = show_group(g[3]);
            out.append(":");
            out.append(b.as_str());
            out.append(":");
            out.append(c.as_str());
            out.append(":");
            out.append(d.as_str());
            out.append(":****:****:****:****");
            out
        },
        None => {
            let out = String::new();
            proof {
                assert(out@ =~= seq![]);
            }
            out
        },
    }
}

/// The 16 bytes that an address is stored as; four bytes are stored as the
/// mapped address of the other kind.
pub open spec fn ip_bytes(ip: IpBits) -> Seq<u8> {
    match ip {
        IpBits::V4(o) => Seq::new(10, |i: int| 0u8) + seq![255u8, 255u8] + o@,
        IpBits::V6(g) => Seq::new(
            16,
            |i: int|
                if i % 2 == 0 {
                    (g@[i / 2] / 256) as u8
                } else {
                    (g@[i / 2] % 256) as u8
                },
        ),
    }
}

/// The 16 bytes that an address is stored as.
pub fn ip_to_binary(ip: IpBits) -> (r: Vec<u8>)
    ensures
        r@ == ip_bytes(ip),
        r@.len() == 16,
{
    let mut out: Vec<u8> = Vec::new();
    match ip {
        IpBits::V4(o) => {
            let mut i: usize = 0;
            while i < 10
                invariant
                    i <= 10,
                    out@ == Seq::new(i as nat, |k: int| 0u8),
                decreases 10 - i,
            {
                out.push(0);
                proof {
                    assert(out@ =~= Seq::new((i + 1) as nat, |k: int| 0u8));
                }
                i += 1;
            }
            out.push(255);
            out.push(255);
            out.push(o[0]);
            out.push(o[1]);
            out.push(o[2]);
            out.push(o[3]);
            proof {
                assert(out@ =~= ip_bytes(ip));
            }
        },
        IpBits::V6(g) => {
            let mut i: usize = 0;
            while i < 8
                invariant
                    i <= 8,
                    ip == IpBits::V6(g),
                    out@ == ip_bytes(ip).take(2 * i),
                decreases 8 - i,
            {
                out.push((g[i] / 256) as u8);
                out.push((g[i] % 256) as u8);
                proof {
                    assert(out@ =~= ip_bytes(ip).take(2 * (i + 1)));
                }
                i += 1;
            }
            proof {
                assert(out@ =~= ip_bytes(ip));
            }
        },
    }
    out
}

/// The bytes that each of `v` holds.
pub open spec fn byte_strings(v: Seq<Vec<u8>>) -> Seq<Seq<u8>> {
    v.map_values(|b: Vec<u8>| b@)
}

/// What is stored of addresses, each once, in the order in which they first occur,
/// without what is no address.
pub open spec fn distinct_stored(ips: Seq<Option<IpBits>>) -> Seq<Seq<u8>>
    decreases ips.len(),
{
    if ips.len() == 0 {
        seq![]
    } else {
        let before = distinct_stored(ips.drop_last());
        match ips.last() {
            Some(ip) if !before.contains(ip_bytes(ip)) => before.push(ip_bytes(ip)),
            _ => before,
        }
    }
}

/// No address is stored twice, and each one that is given is stored.
pub proof fn addresses_are_stored_once(ips: Seq<Option<IpBits>>)
    ensures
        distinct_stored(ips).no_duplicates(),
        forall|k: int|
            0 <= k < ips.len() && (#[trigger] ips[k]) is Some ==> distinct_stored(ips).contains(
                ip_bytes(ips[k]->0),
            ),
    decreases ips.len(),
{
    if ips.len() > 0 {
        addresses_are_stored_once(ips.drop_last());
        let before = distinct_stored(ips.drop_last());
        assert forall|k: int| 0 <= k < ips.len() && (#[trigger] ips[k]) is Some implies
        distinct_stored(ips).contains(ip_bytes(ips[k]->0)) by {
            if k < ips.len() - 1 {
                assert(ips.drop_last()[k] == ips[k]);
                let at = before.index_of(ip_bytes(ips[k]->0));
                assert(distinct_stored(ips)[at] == ip_bytes(ips[k]->0));
            } else if !before.contains(ip_bytes(ips[k]->0)) {
                assert(distinct_stored(ips)[before.len() as int] == ip_bytes(ips[k]->0));
            }
        }
    }
}

fn same_bytes(a: &Vec<u8>, b: &Vec<u8>) -> (r: bool)
    ensures
        r == (a@ == b@),
{
    if a.len() != b.len() {
        return false;
    }
    let mut i: usize = 0;
    while i < a.len()
        invariant
            i <= a@.len() == b@.len(),
            a@.take(i as int) =~= b@.take(i as int),
        decreases a@.len() - i,
    {
        if a[i] != b[i] {
            return false;
        }
        proof {
            assert(a@.take(i + 1) =~= a@.take(i as int).push(a@[i as int]));
            assert(b@.take(i + 1) =~= b@.take(i as int).push(b@[i as int]));
        }
        i += 1;
    }
    proof {
        assert(a@.take(a@.len() as int) =~= a@);
        assert(b@.take(b@.len() as int) =~= b@);
    }
    true
}

fn contains_bytes(v: &Vec<Vec<u8>>, b: &Vec<u8>) -> (r: bool)
    ensures
        r == byte_strings(v@).contains(b@),
{
    let mut i: usize = 0;
    while i < v.len()
        invariant
            i <= v@.len(),
            forall|k: int| 0 <= k < i ==> (#[trigger] byte_strings(v@)[k]) != b@,
        decreases v@.len() - i,
    {
        if same_bytes(&v[i], b) {
            proof {
                assert(byte_strings(v@)[i as int] == b@);
            }
            return true;
        }
        i += 1;
    }
    false
}

/// What is stored of the addresses among `ips`, each once.
pub fn stored_addresses(ips: &[Option<IpBits>]) -> (r: Vec<Vec<u8>>)
    ensures
        byte_strings(r@) == distinct_stored(ips@),
{
    let mut out: Vec<Vec<u8>> = Vec::new();
    let mut i: usize = 0;
    proof {
        assert(ips@.take(0) =~= seq![]);
        assert(byte_strings(out@) =~= seq![]);
    }
    while i < ips.len()
        invariant
            i <= ips@.len(),
            byte_strings(out@) == distinct_stored(ips@.take(i as int)),
        decreases ips@.len() - i,
    {
        proof {
            assert(ips@.take(i + 1).drop_last() =~= ips@.take(i as int));
        }
        if let Some(ip) = ips[i] {
            let binary = ip_to_binary(ip);
            if !contains_bytes(&out, &binary) {
                proof {
                    assert(byte_strings(out@.push(binary)) =~= byte_strings(out@).push(binary@));
                }
                out.push(binary);
            }
        }
        i += 1;
    }
    proof {
        assert(ips@.take(ips@.len() as int) =~= ips@);
    }
    out
}

/// Whether 16 bytes store a mapped address.
pub open spec fn is_mapped(b: Seq<u8>) -> bool {
    (forall|i: int| 0 <= i < 10 ==> #[trigger] b[i] == 0) && b[10] == 255 && b[11] == 255
}

/// The address that 16 bytes store; a mapped one is one of four bytes. Nothing
/// else stores an address.
pub fn binary_to_ip(binary: &[u8]) -> (r: Option<IpBits>)
    ensures
        r is Some <==> binary@.len() == 16,
        r matches Some(ip) ==> ip_bytes(ip) == binary@ && (ip is V4 <==> is_mapped(binary@)),
{
    if binary.len() != 16 {
        return None;
    }
    let mut zeros: usize = 0;
    while zeros < 10 && binary[zeros] == 0
        invariant
            zeros <= 10,
            binary@.len() == 16,
            forall|i: int| 0 <= i < zeros ==> #[trigger] binary@[i] == 0,
        decreases 10 - zeros,
    {
        zeros += 1;
    }
    if zeros == 10 && binary[10] == 255 && binary[11] == 255 {
        let ip = IpBits::V4([binary[12], binary[13], binary[14], binary[15]]);
        proof {
            assert(ip_bytes(ip) =~= binary@);
        }
        return Some(ip);
    }
    let mut g: [u16; 8] = [0, 0, 0, 0, 0, 0, 0, 0];
    let mut i: usize = 0;
    while i < 8
        invariant
            i <= 8,
            binary@.len() == 16,
            forall|k: int|
                0 <= k < i ==> #[trigger] g@[k] == binary@[2 * k] * 256 + binary@[2 * k + 1],
        decreases 8 - i,
    {
        g[i] = (binary[2 * i] as u16) * 256 + binary[2 * i + 1] as u16;
        i += 1;
    }
    let ip = IpBits::V6(g);
    proof {
        assert forall|k: int| 0 <= k < 16 implies ip_bytes(ip)[k] == binary@[k] by {
            assert(g@[k / 2] == binary@[2 * (k / 2)] * 256 + binary@[2 * (k / 2) + 1]);
        }
        assert(ip_bytes(ip) =~= binary@);
        if is_mapped(binary@) {
            if zeros < 10 {
                assert(binary@[zeros as int] == 0);
            }
        }
    }
    Some(ip)
}

/// The bytes of an address, or its groups.
pub open spec fn parts(ip: IpBits) -> Seq<int> {
    match ip {
        IpBits::V4(o) => o@.map_values(|b: u8| b as int),
        IpBits::V6(g) => g@.map_values(|n: u16| n as int),
    }
}

/// Addresses of one kind that are stored as the same bytes are the same.
pub proof fn stored_address_is_unique(a: IpBits, b: IpBits)
    requires
        ip_bytes(a) == ip_bytes(b),
        a is V4 <==> b is V4,
    ensures
        parts(a) == parts(b),
{
    match (a, b) {
        (IpBits::V4(x), IpBits::V4(y)) => {
            assert forall|i: int| 0 <= i < 4 implies x@[i] == y@[i] by {
                assert(ip_bytes(a)[12 + i] == x@[i]);
                assert(ip_bytes(b)[12 + i] == y@[i]);
            }
            assert(parts(a) =~= parts(b));
        },
        (IpBits::V6(x), IpBits::V6(y)) => {
            assert forall|i: int| 0 <= i < 8 implies x@[i] == y@[i] by {
                assert(ip_bytes(a)[2 * i] == (x@[i] / 256) as u8);
                assert(ip_bytes(b)[2 * i] == (y@[i] / 256) as u8);
                assert(ip_bytes(a)[2 * i + 1] == (x@[i] % 256) as u8);
                assert(ip_bytes(b)[2 * i + 1] == (y@[i] % 256) as u8);
            }
            assert(parts(a) =~= parts(b));
        },
        _ => {},
    }
}

/// The text of the address in a header: the last one of a list.
pub open spec fn last_listed(raw: Seq<char>) -> Option<Seq<char>> {
    let value = text::trimmed(search::split_on(raw, ',').last());
    if value.len() == 0 {
        None
    } else {
        Some(value)
    }
}

/// The text of the address in a header: the last one of a list.
pub fn ip_text_from_header(raw: &str) -> (r: Option<String>)
    ensures
        match r {
            Some(s) => last_listed(raw@) == Some(s@),
            None => last_listed(raw@) is None,
        },
{
    let pieces = split(raw, ',');
    proof {
        assert(search::split_on(raw@, ',').len() > 0);
        assert(search::texts(pieces@).last() == pieces@.last()@);
    }
    let value = trim(pieces[pieces.len() - 1].as_str());
    if value.as_str().is_empty() {
        None
    } else {
        Some(value)
    }
}

/// Why a header tells no address.
#[derive(Debug, Clone, Copy, PartialEq, Eq, Structural)]
pub enum RealIpError {
    Missing,
    Invalid,
}

pub open spec fn real_ip_error_text(e: RealIpError) -> Seq<char> {
    match e {
        RealIpError::Missing => "real ip header not found"@,
        RealIpError::Invalid => "invalid ip"@,
    }
}

impl RealIpError {
    /// What is told of it.
    pub fn message(self) -> (r: &'static str)
        ensures
            r@ == real_ip_error_text(self),
    {
        match self {
            RealIpError::Missing => "real ip header not found",
            RealIpError::Invalid => "invalid ip",
        }
    }
}

/// The address that a header tells, `parsed` being what its last text is as an
/// address, where it is one.
pub open spec fn header_ip(raw: Seq<char>, parsed: Option<String>) -> Result<String, RealIpError> {
    if last_listed(raw) is None {
        Err(RealIpError::Missing)
    } else {
        match parsed {
            Some(ip) => Ok(ip),
            None => Err(RealIpError::Invalid),
        }
    }
}

/// The address that a header tells.
pub fn parse_ip_from_header(raw: &str, parsed: Option<String>) -> (r: Result<String, RealIpError>)
    ensures
        r == header_ip(raw@, parsed),
{
    match ip_text_from_header(raw) {
        Some(_) => match parsed {
            Some(ip) => Ok(ip),
            None => Err(RealIpError::Invalid),
        },
        None => Err(RealIpError::Missing),
    }
}

/// A header, and what its last text is as an address, where it is one.
#[derive(Debug)]
pub struct IpHeader<'a> {
    pub raw: &'a str,
    pub parsed: Option<String>,
}

/// The address that a header tells, where there is one.
pub open spec fn told_ip(header: Option<IpHeader>) -> Option<String> {
    match header {
        Some(h) => match header_ip(h.raw@, h.parsed) {
            Ok(ip) => Some(ip),
            Err(_) => None,
        },
        None => None,
    }
}

fn header_told_ip(header: Option<IpHeader>) -> (r: Option<String>)
    ensures
        r == told_ip(header),
{
    match header {
        Some(h) => match parse_ip_from_header(h.raw, h.parsed) {
            Ok(ip) => Some(ip),
            Err(_) => None,
        },
        None => None,
    }
}

/// The address of a request behind proxies.
pub open spec fn ip_behind(real_ip: Option<IpHeader>, forwarded: Option<IpHeader>) -> Option<String> {
    match told_ip(real_ip) {
        Some(ip) => Some(ip),
        None => told_ip(forwarded),
    }
}

/// The address of a request behind proxies: the one in `X-Real-IP` or, where that
/// tells none, the one in `X-Forwarded-For`.
pub fn request_ip(real_ip: Option<IpHeader>, forwarded: Option<IpHeader>) -> (r: Option<String>)
    ensures
        r == ip_behind(real_ip, forwarded),
{
    match header_told_ip(real_ip) {
        Some(ip) => Some(ip),
        None => header_told_ip(forwarded),
    }
}

/// Where the address of a request is found: in the headers that proxies set, or
/// in one that is named.
#[derive(Debug, Clone, Copy, PartialEq, Eq, Structural)]
pub enum IpSource {
    Proxies,
    Named,
}

/// Where the address of a request is found, by the setting `web_real_ip_header`.
pub open spec fn source_of(header: Seq<char>) -> IpSource {
    if header.len() == 0 || header == "NZ::Use-Peer-IP"@ {
        IpSource::Proxies
    } else {
        IpSource::Named
    }
}

/// Where the address of a request is found, by the setting `web_real_ip_header`.
pub fn ip_source(header: &str) -> (r: IpSource)
    ensures
        r == source_of(header@),
{
    if header.is_empty() || same(header, "NZ::Use-Peer-IP") {
        IpSource::Proxies
    } else {
        IpSource::Named
    }
}

/// An address of four bytes is open unless its first bytes are those of a block for
/// private, local or special use.
pub proof fn private_blocks_are_closed(o: [u8; 4])
    ensures
        !is_open(IpBits::V4(o)) <==> ({
            let (a, b, c) = (o@[0], o@[1], o@[2]);
            ||| a == 0 || a == 10 || a == 127
            ||| a == 100 && b / 64 == 1
            ||| a == 169 && b == 254
            ||| a == 172 && b / 16 == 1
            ||| a == 192 && b == 168
            ||| a == 192 && b == 0 && (c == 0 || c == 2)
            ||| a == 198 && b / 2 == 9
            ||| a == 198 && b == 51 && c == 100
            ||| a == 203 && b == 0 && c == 113
            ||| a / 32 == 7
        }),
{
}

/// An address of eight groups is open unless its first bits are those of a block for
/// private, local or special use.
pub proof fn local_blocks_are_closed(g: [u16; 8])
    ensures
        !is_open(IpBits::V6(g)) <==> ({
            let zero = |from: int, to: int|
                forall|i: int| from <= i < to ==> #[trigger] g@[i] == 0;
            ||| zero(0, 7) && (g@[7] == 0 || g@[7] == 1)
            ||| zero(0, 5) && g@[5] == 65535
            ||| g@[0] == 0x64 && g@[1] == 0xff9b && zero(2, 6)
            ||| g@[0] == 0x100 && zero(1, 4)
            ||| g@[0] == 0x2001 && (g@[1] == 0 || g@[1] == 1 || g@[1] == 0xdb8)
            ||| g@[0] as int / 512 == 0x7e
            ||| g@[0] as int / 64 == 0x3fa
            ||| g@[0] as int / 256 == 0xff
        }),
{
}

/// One closed address is enough to keep notifications from a name, and so is to have
/// none; several open ones are as good as each of them.
pub proof fn one_closed_address_is_enough(a: Seq<IpBits>, b: Seq<IpBits>)
    requires
        a.len() > 0,
        b.len() > 0,
    ensures
        !all_open(seq![]),
        all_open(a + b) <==> all_open(a) && all_open(b),
        a.len() == 1 ==> (all_open(a) <==> is_open(a[0])),
{
    let all = a + b;
    assert forall|i: int| 0 <= i < a.len() implies all[i] == #[trigger] a[i] by {}
    assert forall|i: int| 0 <= i < b.len() implies all[i + a.len()] == #[trigger] b[i] by {}
    if all_open(a) && all_open(b) {
        assert forall|i: int| 0 <= i < all.len() implies is_open(#[trigger] all[i]) by {
            if i >= a.len() {
                assert(all[i] == b[i - a.len()]);
            } else {
                assert(all[i] == a[i]);
            }
        }
    }
    if all_open(all) {
        assert forall|i: int| 0 <= i < a.len() implies is_open(#[trigger] a[i]) by {
            assert(all[i] == a[i]);
        }
        assert forall|i: int| 0 <= i < b.len() implies is_open(#[trigger] b[i]) by {
            assert(is_open(all[i + a.len()]));
        }
    }
}

/// Addresses that agree in the part that is shown are shown alike: of four bytes the
/// last is hidden, of eight groups the last four. The first part is told, and no
/// address is shown where there is none.
pub proof fn hidden_parts_are_not_told(o: [u8; 4], p: [u8; 4], g: [u16; 8], h: [u16; 8])
    ensures
        o@[0] == p@[0] && o@[1] == p@[1] && o@[2] == p@[2] ==> hidden_half(Some(IpBits::V4(o)))
            == hidden_half(Some(IpBits::V4(p))),
        g@[0] == h@[0] && g@[1] == h@[1] && g@[2] == h@[2] && g@[3] == h@[3] ==> hidden_half(
            Some(IpBits::V6(g)),
        ) == hidden_half(Some(IpBits::V6(h))),
        (decimal::decimal(o@[0] as nat) + "."@ + decimal::decimal(o@[1] as nat) + "."@
            + decimal::decimal(o@[2] as nat)).is_prefix_of(hidden_half(Some(IpBits::V4(o)))),
        hidden_half(None).len() == 0,
{
    let shown = hidden_half(Some(IpBits::V4(o)));
    let front = decimal::decimal(o@[0] as nat) + "."@ + decimal::decimal(o@[1] as nat) + "."@
        + decimal::decimal(o@[2] as nat);
    assert(shown.take(front.len() as int) =~= front);
}

/// Of a list of addresses in a header the last counts, which the nearest proxy has
/// entered, whatever a client has written before it.
pub proof fn last_address_of_a_header_counts(before: Seq<char>, last: Seq<char>)
    requires
        forall|i: int| 0 <= i < last.len() ==> #[trigger] last[i] != ',',
    ensures
        text::trimmed(last).len() > 0 ==> last_listed(before + seq![','] + last) == Some(
            text::trimmed(last),
        ) && last_listed(last) == Some(text::trimmed(last)),
        text::trimmed(last).len() == 0 ==> last_listed(before + seq![','] + last) is None
            && last_listed(last) is None,
    decreases before.len(),
{
    let s = before + seq![','] + last;
    lemma_last_piece(before, last);
    search::lemma_index_of_char(last, ',', 0);
    let k = search::index_of_char(last, ',', 0);
    if k < last.len() {
        assert(last[k] == ',');
    }
    assert(search::split_on(last, ',') =~= seq![last]);
}

proof fn lemma_last_piece(before: Seq<char>, last: Seq<char>)
    requires
        forall|i: int| 0 <= i < last.len() ==> #[trigger] last[i] != ',',
    ensures
        search::split_on(before + seq![','] + last, ',').last() == last,
        search::split_on(before + seq![','] + last, ',').len() > 0,
    decreases before.len(),
{
    let s = before + seq![','] + last;
    search::lemma_index_of_char(s, ',', 0);
    let at = search::index_of_char(s, ',', 0);
    assert(s[before.len() as int] == ',');
    assert(at <= before.len());
    if at == before.len() {
        assert(s.skip(at + 1) =~= last);
        search::lemma_index_of_char(last, ',', 0);
        let k = search::index_of_char(last, ',', 0);
        if k < last.len() {
            assert(last[k] == ',');
        }
        assert(search::split_on(last, ',') =~= seq![last]);
    } else {
        let rest = before.skip(at + 1);
        assert(s.skip(at + 1) =~= rest + seq![','] + last);
        lemma_last_piece(rest, last);
    }
}

/// The header `X-Real-IP` counts before `X-Forwarded-For`; one that tells no address
/// counts as none. Where a header is named, it alone counts.
pub proof fn real_ip_counts_first(told: IpHeader, forwarded: IpHeader, ip: String, name: Seq<char>)
    requires
        last_listed(told.raw@) is Some,
        told.parsed == Some(ip),
    ensures
        ip_behind(Some(told), Some(forwarded)) == Some(ip),
        ip_behind(None, Some(told)) == Some(ip),
        forwarded.parsed is None ==> ip_behind(Some(forwarded), Some(told)) == Some(ip),
        last_listed(forwarded.raw@) is None ==> ip_behind(Some(forwarded), Some(told)) == Some(ip),
        ip_behind(None, None) is None,
        name.len() > 0 && name != "NZ::Use-Peer-IP"@ ==> source_of(name) == IpSource::Named,
        source_of(seq![]) == IpSource::Proxies,
        source_of("NZ::Use-Peer-IP"@) == IpSource::Proxies,
        header_ip(told.raw@, None) == Err::<String, RealIpError>(RealIpError::Invalid),
        last_listed(forwarded.raw@) is None ==> header_ip(forwarded.raw@, forwarded.parsed)
            == Err::<String, RealIpError>(RealIpError::Missing),
{
}

} // verus!
