//! IPv6 addresses scoped to a network interface, written `address%zone`, where the zone
//! names the interface or gives its index.
use vstd::prelude::*;

use crate::command_line::{digit_value, is_digit, parse_digits, IntErrorKind};
use crate::text::{chars_of, string_of};

verus! {

/// Why a scoped address was refused.
#[derive(Debug, Clone, Copy, PartialEq, Eq, Structural)]
pub enum IfAddrError {
    /// Nothing to parse.
    EmptyString,
    /// No `%` and zone after the address.
    MissingScopeId,
    /// The multiaddress is not an IPv6 address followed by its zone.
    InvalidMultiaddr,
}

/// The zone of a scoped address: the index of the interface, or its name.
#[derive(Debug, Clone, PartialEq, Eq)]
pub enum Zone {
    Index(u32),
    Name(String),
}

/// An interface address: the interface's index and name, and the IPv6 address as its
/// 128 bits.
pub struct IfAddr {
    pub if_index: u32,
    pub if_name: String,
    pub addr: u128,
}

/// A protocol of a multiaddress, as far as the zone of an address needs it.
#[derive(Debug, Clone, PartialEq, Eq)]
pub enum ProtocolHead {
    Ip6(u128),
    Ip6zone(String),
    Other,
}

#[verifier::external_type_specification]
#[verifier::external_body]
pub struct ExMultiaddr(multiaddr::Multiaddr);

/// The protocols of a multiaddress, in order.
pub uninterp spec fn multiaddr_protocols(m: multiaddr::Multiaddr) -> Seq<ProtocolHead>;

/// The protocol at position `i` of a multiaddress (`multiaddr::Multiaddr::iter`), the
/// address of an `Ip6` as its bits and the text of an `Ip6zone`.
#[verifier::external_body]
fn protocol_at(m: &multiaddr::Multiaddr, i: usize) -> (r: Option<ProtocolHead>)
    ensures
        i < multiaddr_protocols(*m).len() ==> r == Some(multiaddr_protocols(*m)[i as int]),
        i >= multiaddr_protocols(*m).len() ==> r is None,
{
    match m.iter().nth(i) {
        Some(multiaddr::Protocol::Ip6(addr)) => Some(ProtocolHead::Ip6(u128::from(addr))),
        Some(multiaddr::Protocol::Ip6zone(zone)) => Some(ProtocolHead::Ip6zone(zone.into_owned())),
        Some(_) => Some(ProtocolHead::Other),
        None => None,
    }
}

/// `Multiaddr::empty().with(Protocol::Ip6(..)).with(Protocol::Ip6zone(..))`: the
/// multiaddress of an IPv6 address, given by its bits, and its zone. `with` writes each
/// protocol as its code and bytes, which `iter` reads back, so its protocols are those two.
#[verifier::external_body]
fn ip6_with_zone(addr: u128, zone: String) -> (r: multiaddr::Multiaddr)
    ensures
        multiaddr_protocols(r) == seq![ProtocolHead::Ip6(addr), ProtocolHead::Ip6zone(zone)],
{
    multiaddr::Multiaddr::empty()
        .with(multiaddr::Protocol::Ip6(addr.into()))
        .with(multiaddr::Protocol::Ip6zone(zone.into()))
}

/// `u32::from_str`: an empty string is empty; a lone sign is an invalid digit; one
/// leading `+` is allowed; then decimal digits, at most `u32::MAX`.
pub open spec fn parse_u32_spec(s: Seq<char>) -> Result<u32, IntErrorKind> {
    if s.len() == 0 {
        Err(IntErrorKind::Empty)
    } else if s.len() == 1 && (s[0] == '+' || s[0] == '-') {
        Err(IntErrorKind::InvalidDigit)
    } else {
        let digits = if s[0] == '+' { s.skip(1) } else { s };
        match parse_digits(digits, 0, 4294967295) {
            Ok(v) => Ok(v as u32),
            Err(e) => Err(e),
        }
    }
}

/// Parses a decimal `u32` as `str::parse` does; `None` where it fails.
pub fn parse_u32(s: &str) -> (r: Option<u32>)
    ensures
        match parse_u32_spec(s@) {
            Ok(v) => r == Some(v),
            Err(_) => r is None,
        },
{
    let v = chars_of(s);
    if v.len() == 0 {
        return None;
    }
    if v.len() == 1 && (v[0] == '+' || v[0] == '-') {
        return None;
    }
    let start: usize = if v[0] == '+' { 1 } else { 0 };
    let ghost digits = if v@[0] == '+' { v@.skip(1) } else { v@ };
    assert(digits =~= v@.skip(start as int));
    let mut acc: u64 = 0;
    let mut i: usize = start;
    while i < v.len()
        invariant
            start <= i <= v.len(),
            acc <= 4294967295,
            v@ == s@,
            v.len() > 0,
            !(v.len() == 1 && (v@[0] == '+' || v@[0] == '-')),
            digits == (if v@[0] == '+' { v@.skip(1) } else { v@ }),
            parse_digits(v@.skip(i as int), acc as int, 4294967295) == parse_digits(digits, 0, 4294967295),
        decreases v.len() - i,
    {
        let c = v[i];
        assert(v@.skip(i as int)[0] == c);
        assert(v@.skip(i as int).skip(1) =~= v@.skip(i + 1));
        if !('0' <= c && c <= '9') {
            assert(!is_digit(v@.skip(i as int)[0]));
            return None;
        }
        let d = (c as u64) - ('0' as u64);
        assert(d == digit_value(c));
        if acc * 10 + d > 4294967295 {
            return None;
        }
        acc = acc * 10 + d;
        i = i + 1;
    }
    assert(v@.skip(i as int).len() == 0);
    Some(acc as u32)
}

/// The zone that a text names: an index where it parses as a `u32`, a name otherwise.
pub fn parse_zone(z: &str) -> (r: Zone)
    ensures
        match parse_u32_spec(z@) {
            Ok(n) => r == Zone::Index(n),
            Err(_) => r matches Zone::Name(name) && name@ == z@,
        },
{
    match parse_u32(z) {
        Some(n) => Zone::Index(n),
        None => Zone::Name(z.to_owned()),
    }
}

/// Splits `address%zone` at its first `%` (`str::splitn` with 2 parts): the address text
/// and the zone, which may hold more `%`; without a `%` the zone is missing.
pub fn split_scope(s: &str) -> (r: Result<(String, Zone), IfAddrError>)
    ensures
        (exists|i: int| 0 <= i < s@.len() && s@[i] == '%') <==> r is Ok,
        r is Err ==> r == Err::<(String, Zone), IfAddrError>(IfAddrError::MissingScopeId),
        r matches Ok((addr, zone)) ==> exists|i: int| {
            &&& 0 <= i < s@.len()
            &&& s@[i] == '%'
            &&& forall|j: int| 0 <= j < i ==> s@[j] != '%'
            &&& addr@ == s@.take(i)
            &&& match parse_u32_spec(s@.skip(i + 1)) {
                Ok(n) => zone == Zone::Index(n),
                Err(_) => zone matches Zone::Name(name) && name@ == s@.skip(i + 1),
            }
        },
{
    let v = chars_of(s);
    let mut i: usize = 0;
    while i < v.len() && v[i] != '%'
        invariant
            v@ == s@,
            i <= v.len(),
            forall|j: int| 0 <= j < i ==> v@[j] != '%',
        decreases v.len() - i,
    {
        i = i + 1;
    }
    if i == v.len() {
        return Err(IfAddrError::MissingScopeId);
    }
    let mut head: Vec<char> = Vec::new();
    let mut tail: Vec<char> = Vec::new();
    let mut k: usize = 0;
    while k < v.len()
        invariant
            v@ == s@,
            i < v.len(),
            k <= v.len(),
            k <= i ==> head@ == v@.take(k as int) && tail@.len() == 0,
            k > i ==> head@ == v@.take(i as int) && tail@ == v@.subrange(i + 1, k as int),
        decreases v.len() - k,
    {
        if k < i {
            head.push(v[k]);
            assert(v@.take(k + 1) =~= v@.take(k as int).push(v@[k as int]));
        } else if k > i {
            tail.push(v[k]);
            assert(v@.subrange(i + 1, k + 1) =~= v@.subrange(i + 1, k as int).push(v@[k as int]));
        } else {
            assert(v@.subrange(i + 1, k + 1) =~= Seq::<char>::empty());
        }
        k = k + 1;
    }
    assert(tail@ =~= v@.skip(i + 1));
    let zone_text = string_of(&tail);
    let zone = parse_zone(zone_text.as_str());
    Ok((string_of(&head), zone))
}

/// The decimal digits of `n`.
pub open spec fn decimal(n: nat) -> Seq<char>
    decreases n,
{
    if n < 10 {
        seq![(48 + n) as char]
    } else {
        decimal(n / 10).push((48 + n % 10) as char)
    }
}

/// `u32::to_string`: the decimal digits of `n`.
pub fn u32_to_string(n: u32) -> (r: String)
    ensures
        r@ == decimal(n as nat),
{
    let mut digits: Vec<char> = Vec::new();
    let mut m: u32 = n;
    loop
        invariant_except_break
            m <= n,
            decimal(n as nat) == decimal(m as nat) + digits@.reverse(),
        ensures
            decimal(n as nat) == digits@.reverse(),
        decreases m,
    {
        let d = m % 10;
        let c = ((48 + d) as u8) as char;
        if m < 10 {
            assert(decimal(m as nat) == seq![c]);
            let ghost before = digits@;
            digits.push(c);
            assert(digits@.reverse() =~= seq![c] + before.reverse());
            break;
        }
        assert(decimal(m as nat) == decimal((m / 10) as nat).push(c));
        let ghost before = digits@;
        digits.push(c);
        assert(digits@.reverse() =~= seq![c] + before.reverse());
        assert(decimal((m / 10) as nat).push(c) + before.reverse() =~= decimal((m / 10) as nat) + digits@.reverse());
        m = m / 10;
    }
    let mut out: Vec<char> = Vec::new();
    let mut i: usize = digits.len();
    while i > 0
        invariant
            i <= digits.len(),
            out@ == digits@.skip(i as int).reverse(),
        decreases i,
    {
        i = i - 1;
        out.push(digits[i]);
        assert(digits@.skip(i as int).reverse() =~= digits@.skip(i + 1).reverse().push(digits@[i as int]));
    }
    assert(digits@.skip(0) =~= digits@);
    assert(out@ == decimal(n as nat));
    string_of(&out)
}

/// Reading one more digit after `s`: its value goes onto what `s` read.
proof fn lemma_parse_digits_push(s: Seq<char>, c: char, acc: int, max: int)
    requires
        is_digit(c),
    ensures
        parse_digits(s.push(c), acc, max) == match parse_digits(s, acc, max) {
            Ok(v) => if v * 10 + digit_value(c) > max {
                Err(IntErrorKind::PosOverflow)
            } else {
                Ok(v * 10 + digit_value(c))
            },
            Err(e) => Err(e),
        },
    decreases s.len(),
{
    reveal_with_fuel(parse_digits, 2);
    if s.len() == 0 {
        assert(s.push(c).skip(1) =~= Seq::<char>::empty());
    } else {
        assert(s.push(c)[0] == s[0]);
        assert(s.push(c).skip(1) =~= s.skip(1).push(c));
        if is_digit(s[0]) && acc * 10 + digit_value(s[0]) <= max {
            lemma_parse_digits_push(s.skip(1), c, acc * 10 + digit_value(s[0]), max);
        }
    }
}

/// The decimal digits of `n` are digits, and read back as `n` wherever it is at most
/// `max`.
proof fn lemma_decimal_reads_back(n: nat, max: int)
    requires
        n <= max,
    ensures
        decimal(n).len() > 0,
        forall|i: int| 0 <= i < decimal(n).len() ==> is_digit(#[trigger] decimal(n)[i]),
        parse_digits(decimal(n), 0, max) == Ok::<int, IntErrorKind>(n as int),
    decreases n,
{
    if n < 10 {
        let c = (48 + n) as char;
        assert(c as int == 48 + n);
        assert(decimal(n) == seq![c]);
        assert(seq![c].skip(1) =~= Seq::<char>::empty());
        reveal_with_fuel(parse_digits, 2);
    } else {
        let c = (48 + n % 10) as char;
        assert(c as int == 48 + n % 10);
        lemma_decimal_reads_back(n / 10, max);
        lemma_parse_digits_push(decimal(n / 10), c, 0, max);
        assert(decimal(n) == decimal(n / 10).push(c));
    }
}

/// An interface index written in decimal, as a zone by index is, parses back as the
/// same index, so a multiaddress made with the index as its zone reads back that index.
pub proof fn lemma_index_zone_reads_back(n: u32)
    ensures
        parse_u32_spec(decimal(n as nat)) == Ok::<u32, IntErrorKind>(n),
{
    lemma_decimal_reads_back(n as nat, 4294967295);
    let d = decimal(n as nat);
    assert(is_digit(d[0]));
}

impl IfAddr {
    /// The zone written for this address: the interface's name, or its index.
    pub fn zone_text(&self, name: bool) -> (r: String)
        ensures
            name ==> r@ == self.if_name@,
            !name ==> r@ == decimal(self.if_index as nat),
    {
        if name {
            self.if_name.clone()
        } else {
            u32_to_string(self.if_index)
        }
    }

    /// The multiaddress of this address: its IPv6 address, then its zone, which is the
    /// interface's name or its index.
    pub fn to_multiaddr(&self, name: bool) -> (r: multiaddr::Multiaddr)
        ensures
            multiaddr_protocols(r).len() == 2,
            multiaddr_protocols(r)[0] == ProtocolHead::Ip6(self.addr),
            multiaddr_protocols(r)[1] matches ProtocolHead::Ip6zone(z)
                && z@ == (if name { self.if_name@ } else { decimal(self.if_index as nat) }),
    {
        let zone = self.zone_text(name);
        ip6_with_zone(self.addr, zone)
    }

    /// The address and zone of a multiaddress that starts with an IPv6 address and its
    /// zone; refused otherwise.
    pub fn zone_of_protocols(first: Option<ProtocolHead>, second: Option<ProtocolHead>) -> (r: Result<(u128, Zone), IfAddrError>)
        ensures
            match (first, second) {
                (Some(ProtocolHead::Ip6(addr)), Some(ProtocolHead::Ip6zone(z))) => r matches Ok((a, zone)) && a == addr && match parse_u32_spec(z@) {
                    Ok(n) => zone == Zone::Index(n),
                    Err(_) => zone matches Zone::Name(name) && name@ == z@,
                },
                _ => r == Err::<(u128, Zone), IfAddrError>(IfAddrError::InvalidMultiaddr),
            },
    {
        let addr = match first {
            Some(ProtocolHead::Ip6(addr)) => addr,
            _ => {
                return Err(IfAddrError::InvalidMultiaddr);
            },
        };
        let z = match second {
            Some(ProtocolHead::Ip6zone(z)) => z,
            _ => {
                return Err(IfAddrError::InvalidMultiaddr);
            },
        };
        Ok((addr, parse_zone(z.as_str())))
    }

    /// The address and zone of a multiaddress that starts with an IPv6 address and its
    /// zone; refused otherwise.
    pub fn zone_of_multiaddr(m: &multiaddr::Multiaddr) -> (r: Result<(u128, Zone), IfAddrError>)
        ensures
            match (
                if multiaddr_protocols(*m).len() > 0 { Some(multiaddr_protocols(*m)[0]) } else { None },
                if multiaddr_protocols(*m).len() > 1 { Some(multiaddr_protocols(*m)[1]) } else { None },
            ) {
                (Some(ProtocolHead::Ip6(addr)), Some(ProtocolHead::Ip6zone(z))) => r matches Ok((a, zone)) && a == addr && match parse_u32_spec(z@) {
                    Ok(n) => zone == Zone::Index(n),
                    Err(_) => zone matches Zone::Name(name) && name@ == z@,
                },
                _ => r == Err::<(u128, Zone), IfAddrError>(IfAddrError::InvalidMultiaddr),
            },
    {
        let first = protocol_at(m, 0);
        let second = protocol_at(m, 1);
        Self::zone_of_protocols(first, second)
    }
}

} // verus!
