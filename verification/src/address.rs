//! Network endpoints and their compact wire codec: an IP address carried
//! in its 16-byte IPv6 form (v4 addresses v4-mapped) followed by a
//! little-endian port, and count-prefixed lists of such endpoints.

use vstd::arithmetic::div_mod::{lemma_fundamental_div_mod, lemma_mod_bound};
use vstd::prelude::*;

use crate::seredere::{Deser, DeserError, Ser, VecU8Iterator};

verus! {

/// Number of bytes in the wire form of an IP address (IPv6 octets).
pub const IPV6_SIZE: usize = 16;

/// Number of bytes in the wire form of a port.
pub const PORT_SIZE: usize = 2;

/// Number of bytes in the wire form of an address: IP then port.
pub const ADDRESS_SIZE: usize = IPV6_SIZE + PORT_SIZE;

/// An IP address: four octets, or eight 16-bit segments.
#[derive(Clone, Copy, Debug, PartialEq, Eq, Structural)]
pub enum IpAddress {
    V4(u8, u8, u8, u8),
    V6(u16, u16, u16, u16, u16, u16, u16, u16),
}

/// A network endpoint: an IP address and a port.
#[derive(Clone, Copy, Debug, PartialEq, Eq, Structural)]
pub enum Address {
    IP(IpAddress, u16),
}

impl View for Address {
    type V = Address;

    open spec fn view(&self) -> Address {
        *self
    }
}

/// The 16 wire bytes of an IP address: a v4 address in its v4-mapped
/// form, a v6 address as its segments in big-endian byte pairs.
pub open spec fn ip_bytes(ip: IpAddress) -> Seq<u8> {
    match ip {
        IpAddress::V4(a, b, c, d) => seq![
            0u8,
            0u8,
            0u8,
            0u8,
            0u8,
            0u8,
            0u8,
            0u8,
            0u8,
            0u8,
            0xffu8,
            0xffu8,
            a,
            b,
            c,
            d,
        ],
        IpAddress::V6(s0, s1, s2, s3, s4, s5, s6, s7) => seq![
            (s0 / 256) as u8,
            (s0 % 256) as u8,
            (s1 / 256) as u8,
            (s1 % 256) as u8,
            (s2 / 256) as u8,
            (s2 % 256) as u8,
            (s3 / 256) as u8,
            (s3 % 256) as u8,
            (s4 / 256) as u8,
            (s4 % 256) as u8,
            (s5 / 256) as u8,
            (s5 % 256) as u8,
            (s6 / 256) as u8,
            (s6 % 256) as u8,
            (s7 / 256) as u8,
            (s7 % 256) as u8,
        ],
    }
}

/// The 18 wire bytes of an address: its IP bytes then the port,
/// little-endian.
pub open spec fn addr_ser(a: Address) -> Seq<u8> {
    match a {
        Address::IP(ip, port) => ip_bytes(ip) + seq![(port % 256) as u8, (port / 256) as u8],
    }
}

/// Whether 16-or-more IP bytes carry the v4-mapped prefix: ten zero
/// bytes, then `0xff 0xff`.
pub open spec fn is_v4_mapped(b: Seq<u8>) -> bool {
    (forall|i: int| 0 <= i < 10 ==> b[i] == 0) && b[10] == 0xff && b[11] == 0xff
}

/// The 16-bit segment at position `i` of big-endian IP bytes.
pub open spec fn seg_at(b: Seq<u8>, i: int) -> u16 {
    (b[2 * i] * 256 + b[2 * i + 1]) as u16
}

/// The address carried by 18 wire bytes: the v4 address inside the
/// mapped pattern when it is present, else the v6 address; then the
/// port, little-endian.
pub open spec fn addr_from_bytes(s: Seq<u8>) -> Address {
    let ip = if is_v4_mapped(s) {
        IpAddress::V4(s[12], s[13], s[14], s[15])
    } else {
        IpAddress::V6(
            seg_at(s, 0),
            seg_at(s, 1),
            seg_at(s, 2),
            seg_at(s, 3),
            seg_at(s, 4),
            seg_at(s, 5),
            seg_at(s, 6),
            seg_at(s, 7),
        )
    };
    Address::IP(ip, (s[16] + s[17] * 256) as u16)
}

/// Decoding an address takes exactly its 18 bytes from the front of the
/// source; a shorter source fails.
pub open spec fn addr_deser(s: Seq<u8>) -> Result<(Address, int), DeserError> {
    if s.len() < ADDRESS_SIZE {
        Err(DeserError::UnexpectedEnd)
    } else {
        Ok((addr_from_bytes(s.take(ADDRESS_SIZE as int)), ADDRESS_SIZE as int))
    }
}

/// The canonical form of an address: a v6 address that carries the
/// v4-mapped pattern stands for the v4 address inside it; every other
/// address stands for itself.
pub open spec fn canon_addr(a: Address) -> Address {
    match a {
        Address::IP(IpAddress::V6(s0, s1, s2, s3, s4, s5, s6, s7), port) => {
            if s0 == 0 && s1 == 0 && s2 == 0 && s3 == 0 && s4 == 0 && s5 == 0xffff {
                Address::IP(
                    IpAddress::V4((s6 / 256) as u8, (s6 % 256) as u8, (s7 / 256) as u8, (
                    s7 % 256) as u8),
                    port,
                )
            } else {
                a
            }
        },
        _ => a,
    }
}

impl Ser for Address {
    open spec fn ser_wf(v: Address) -> bool {
        true
    }

    open spec fn encodable(v: Address) -> bool {
        true
    }

    open spec fn spec_ser(v: Address) -> Seq<u8> {
        addr_ser(v)
    }

    fn ser_iter(&self) -> (r: Result<Vec<u8>, DeserError>) {
        let mut out: Vec<u8> = Vec::new();
        match self {
            Address::IP(ip, port) => {
                match ip {
                    IpAddress::V4(a, b, c, d) => {
                        let mut i: usize = 0;
                        while i < 10
                            invariant
                                i <= 10,
                                out@ == Seq::new(i as nat, |j: int| 0u8),
                            decreases 10 - i,
                        {
                            out.push(0u8);
                            proof {
                                assert(out@ =~= Seq::new((i + 1) as nat, |j: int| 0u8));
                            }
                            i = i + 1;
                        }
                        out.push(0xffu8);
                        out.push(0xffu8);
                        out.push(*a);
                        out.push(*b);
                        out.push(*c);
                        out.push(*d);
                    },
                    IpAddress::V6(s0, s1, s2, s3, s4, s5, s6, s7) => {
                        out.push((*s0 / 256) as u8);
                        out.push((*s0 % 256) as u8);
                        out.push((*s1 / 256) as u8);
                        out.push((*s1 % 256) as u8);
                        out.push((*s2 / 256) as u8);
                        out.push((*s2 % 256) as u8);
                        out.push((*s3 / 256) as u8);
                        out.push((*s3 % 256) as u8);
                        out.push((*s4 / 256) as u8);
                        out.push((*s4 % 256) as u8);
                        out.push((*s5 / 256) as u8);
                        out.push((*s5 % 256) as u8);
                        out.push((*s6 / 256) as u8);
                        out.push((*s6 % 256) as u8);
                        out.push((*s7 / 256) as u8);
                        out.push((*s7 % 256) as u8);
                    },
                }
                out.push((*port % 256) as u8);
                out.push((*port / 256) as u8);
            },
        }
        proof {
            assert(out@ =~= addr_ser(self@));
        }
        Ok(out)
    }
}

impl Deser for Address {
    open spec fn spec_deser(s: Seq<u8>) -> Result<(Address, int), DeserError> {
        addr_deser(s)
    }

    fn deser_from_iter(it: &mut VecU8Iterator) -> (r: Result<Address, DeserError>) {
        let b = match it.read_exact(ADDRESS_SIZE) {
            Ok(v) => v,
            Err(e) => return Err(e),
        };
        let mut all_zero = true;
        let mut i: usize = 0;
        while i < 10
            invariant
                i <= 10,
                b@.len() == ADDRESS_SIZE,
                all_zero <==> (forall|j: int| 0 <= j < i ==> b@[j] == 0),
            decreases 10 - i,
        {
            if b[i] != 0 {
                all_zero = false;
            }
            i = i + 1;
        }
        let mapped = all_zero && b[10] == 0xff && b[11] == 0xff;
        let ip = if mapped {
            IpAddress::V4(b[12], b[13], b[14], b[15])
        } else {
            IpAddress::V6(
                (b[0] as u16) * 256 + (b[1] as u16),
                (b[2] as u16) * 256 + (b[3] as u16),
                (b[4] as u16) * 256 + (b[5] as u16),
                (b[6] as u16) * 256 + (b[7] as u16),
                (b[8] as u16) * 256 + (b[9] as u16),
                (b[10] as u16) * 256 + (b[11] as u16),
                (b[12] as u16) * 256 + (b[13] as u16),
                (b[14] as u16) * 256 + (b[15] as u16),
            )
        };
        let port: u16 = (b[16] as u16) + (b[17] as u16) * 256;
        proof {
            assert(b@ == old(it)@.take(ADDRESS_SIZE as int));
            assert(mapped <==> is_v4_mapped(b@));
        }
        Ok(Address::IP(ip, port))
    }
}

/// A 16-bit value splits into and recombines from its two bytes.
proof fn lemma_u16_split(x: u16)
    ensures
        0 <= x / 256 <= 255,
        0 <= x % 256 <= 255,
        256 * (x / 256) + (x % 256) == x,
{
    lemma_fundamental_div_mod(x as int, 256);
    lemma_mod_bound(x as int, 256);
}

/// Decoding the encoding of an address yields its canonical form and
/// consumes exactly its 18 bytes, whatever bytes follow them. A v4
/// address, and a v6 address outside the v4-mapped pattern, come back
/// unchanged.
pub proof fn lemma_address_round_trip(a: Address, rest: Seq<u8>)
    ensures
        addr_deser(addr_ser(a) + rest) == Ok::<(Address, int), DeserError>(
            (canon_addr(a), ADDRESS_SIZE as int),
        ),
{
    let s = addr_ser(a) + rest;
    let t = s.take(ADDRESS_SIZE as int);
    assert(t =~= addr_ser(a));
    match a {
        Address::IP(ip, port) => {
            lemma_u16_split(port);
            match ip {
                IpAddress::V4(x0, x1, x2, x3) => {
                    assert(is_v4_mapped(t));
                },
                IpAddress::V6(s0, s1, s2, s3, s4, s5, s6, s7) => {
                    lemma_u16_split(s0);
                    lemma_u16_split(s1);
                    lemma_u16_split(s2);
                    lemma_u16_split(s3);
                    lemma_u16_split(s4);
                    lemma_u16_split(s5);
                    lemma_u16_split(s6);
                    lemma_u16_split(s7);
                    if s0 == 0 && s1 == 0 && s2 == 0 && s3 == 0 && s4 == 0 && s5 == 0xffff {
                        assert(is_v4_mapped(t));
                    } else {
                        assert(!is_v4_mapped(t)) by {
                            if is_v4_mapped(t) {
                                assert(t[0] == 0 && t[1] == 0 && t[2] == 0 && t[3] == 0);
                                assert(t[4] == 0 && t[5] == 0 && t[6] == 0 && t[7] == 0);
                                assert(t[8] == 0 && t[9] == 0);
                                assert(s0 == 0 && s1 == 0 && s2 == 0 && s3 == 0 && s4 == 0);
                                assert(s5 == 0xffff);
                            }
                        }
                    }
                },
            }
        },
    }
}

/// A source shorter than an address's 18 bytes fails with
/// `UnexpectedEnd`.
pub proof fn lemma_address_truncated(s: Seq<u8>)
    requires
        s.len() < ADDRESS_SIZE,
    ensures
        addr_deser(s) == Err::<(Address, int), DeserError>(DeserError::UnexpectedEnd),
{
}

/// The wire size of an address list of `num_addr` entries: one count
/// byte, then each address's bytes.
pub fn address_list_size(num_addr: usize) -> (r: usize)
    requires
        num_addr <= 255,
    ensures
        r == 1 + num_addr * ADDRESS_SIZE,
{
    1 + num_addr * ADDRESS_SIZE
}

/// The wire bytes of the addresses of a list, in order.
pub open spec fn addr_list_items_ser(l: Seq<Address>) -> Seq<u8>
    decreases l.len(),
{
    if l.len() == 0 {
        Seq::empty()
    } else {
        addr_ser(l[0]) + addr_list_items_ser(l.skip(1))
    }
}

/// The wire encoding of an address list: a count byte, then each
/// address's bytes; faithful for lists of at most 255 addresses.
pub open spec fn addr_list_ser(l: Seq<Address>) -> Seq<u8> {
    seq![l.len() as u8] + addr_list_items_ser(l)
}

/// Decoding of exactly `n` addresses from the front of `s`.
pub open spec fn addr_list_items_deser(s: Seq<u8>, n: nat) -> Result<
    (Seq<Address>, int),
    DeserError,
>
    decreases n,
{
    if n == 0 {
        Ok((Seq::empty(), 0))
    } else {
        match addr_deser(s) {
            Ok((a, m)) => match addr_list_items_deser(s.skip(m), (n - 1) as nat) {
                Ok((t, m2)) => Ok((seq![a] + t, m + m2)),
                Err(e) => Err(e),
            },
            Err(e) => Err(e),
        }
    }
}

/// Decoding an address list reads the count byte, then that many
/// addresses.
pub open spec fn addr_list_deser(s: Seq<u8>) -> Result<(Seq<Address>, int), DeserError> {
    if s.len() == 0 {
        Err(DeserError::UnexpectedEnd)
    } else {
        match addr_list_items_deser(s.skip(1), s[0] as nat) {
            Ok((l, m)) => Ok((l, 1 + m)),
            Err(e) => Err(e),
        }
    }
}

impl Ser for Vec<Address> {
    open spec fn ser_wf(v: Seq<Address>) -> bool {
        true
    }

    open spec fn encodable(v: Seq<Address>) -> bool {
        v.len() <= 255
    }

    open spec fn spec_ser(v: Seq<Address>) -> Seq<u8> {
        addr_list_ser(v)
    }

    fn ser_iter(&self) -> (r: Result<Vec<u8>, DeserError>) {
        if self.len() > 255 {
            return Err(DeserError::SizeExceeded);
        }
        let mut out: Vec<u8> = Vec::new();
        out.push(self.len() as u8);
        let mut i: usize = 0;
        while i < self.len()
            invariant
                i <= self@.len(),
                self@.len() <= 255,
                out@ == seq![self@.len() as u8] + addr_list_items_ser(self@.take(i as int)),
            decreases self@.len() - i,
        {
            let mut addr_bytes = match self[i].ser_iter() {
                Ok(v) => v,
                Err(e) => return Err(e),
            };
            out.append(&mut addr_bytes);
            proof {
                lemma_addr_items_ser_snoc(self@, i as int);
            }
            i = i + 1;
        }
        proof {
            assert(self@.take(self@.len() as int) =~= self@);
        }
        Ok(out)
    }
}

impl Deser for Vec<Address> {
    open spec fn spec_deser(s: Seq<u8>) -> Result<(Seq<Address>, int), DeserError> {
        addr_list_deser(s)
    }

    fn deser_from_iter(it: &mut VecU8Iterator) -> (r: Result<Vec<Address>, DeserError>) {
        let ghost s0: Seq<u8> = it@;
        let count = match it.next() {
            Some(c) => c,
            None => return Err(DeserError::UnexpectedEnd),
        };
        let ghost s1: Seq<u8> = s0.skip(1);
        let mut out: Vec<Address> = Vec::new();
        let ghost consumed: int = 0;
        proof {
            assert(s1.skip(0) =~= s1);
            match addr_list_items_deser(s1, count as nat) {
                Ok((t, m)) => {
                    assert(out@ + t =~= t);
                },
                Err(e) => {},
            }
        }
        let mut i: usize = 0;
        while i < count as usize
            invariant
                it.wf(),
                i <= count,
                s0 == old(it)@,
                s0.len() > 0,
                s1 == s0.skip(1),
                count == s0[0],
                0 <= consumed <= s1.len(),
                it@ == s1.skip(consumed),
                match addr_list_items_deser(it@, (count - i) as nat) {
                    Ok((t, m)) => addr_list_items_deser(s1, count as nat)
                        == Ok::<(Seq<Address>, int), DeserError>((out@ + t, consumed + m)),
                    Err(e) => addr_list_items_deser(s1, count as nat)
                        == Err::<(Seq<Address>, int), DeserError>(e),
                },
            decreases count - i,
        {
            let ghost it_before: Seq<u8> = it@;
            let ghost out_before: Seq<Address> = out@;
            let a = match Address::deser_from_iter(it) {
                Ok(a) => a,
                Err(e) => {
                    proof {
                        assert(addr_deser(it_before) == Err::<(Address, int), DeserError>(e));
                        assert(addr_list_items_deser(it_before, (count - i) as nat) == Err::<
                            (Seq<Address>, int),
                            DeserError,
                        >(e));
                    }
                    return Err(e);
                },
            };
            out.push(a);
            proof {
                assert(addr_deser(it_before) is Ok);
                assert(out@ =~= out_before + seq![a@]);
                match addr_list_items_deser(it@, (count - i - 1) as nat) {
                    Ok((t2, m2)) => {
                        assert(addr_list_items_deser(it_before, (count - i) as nat) == Ok::<
                            (Seq<Address>, int),
                            DeserError,
                        >((seq![a@] + t2, ADDRESS_SIZE + m2)));
                        assert((out_before + (seq![a@] + t2)) =~= (out@ + t2));
                    },
                    Err(e) => {
                        assert(addr_list_items_deser(it_before, (count - i) as nat) == Err::<
                            (Seq<Address>, int),
                            DeserError,
                        >(e));
                    },
                }
                consumed = consumed + ADDRESS_SIZE as int;
                assert(it@ =~= s1.skip(consumed));
            }
            i = i + 1;
        }
        proof {
            assert(addr_list_items_deser(it@, 0) == Ok::<(Seq<Address>, int), DeserError>(
                (Seq::empty(), 0),
            ));
            match addr_list_items_deser(s1, count as nat) {
                Ok((t, m)) => {
                    assert(out@ + Seq::<Address>::empty() =~= out@);
                    assert(it@ =~= s0.skip(1 + consumed));
                },
                Err(e) => {},
            }
        }
        Ok(out)
    }
}

/// Encoding one more address appends that address's bytes.
proof fn lemma_addr_items_ser_snoc(l: Seq<Address>, i: int)
    requires
        0 <= i < l.len(),
    ensures
        addr_list_items_ser(l.take(i + 1)) == addr_list_items_ser(l.take(i)) + addr_ser(l[i]),
    decreases i,
{
    if i == 0 {
        assert(l.take(1)[0] == l[0]);
        assert(l.take(1).skip(1) =~= Seq::<Address>::empty());
        assert(l.take(0) =~= Seq::<Address>::empty());
        assert(addr_ser(l[0]) + Seq::<u8>::empty() =~= Seq::<u8>::empty() + addr_ser(l[0]));
    } else {
        lemma_addr_items_ser_snoc(l.skip(1), i - 1);
        assert(l.take(i + 1).skip(1) =~= l.skip(1).take(i));
        assert(l.take(i).skip(1) =~= l.skip(1).take(i - 1));
        assert(l.take(i + 1)[0] == l[0]);
        assert(l.take(i)[0] == l[0]);
        assert(l.skip(1)[i - 1] == l[i]);
        assert(addr_ser(l[0]) + (addr_list_items_ser(l.skip(1).take(i - 1)) + addr_ser(l[i]))
            =~= (addr_ser(l[0]) + addr_list_items_ser(l.skip(1).take(i - 1))) + addr_ser(l[i]));
    }
}

/// The canonical form of each address of a list.
pub open spec fn canon_addr_list(l: Seq<Address>) -> Seq<Address> {
    l.map_values(|a: Address| canon_addr(a))
}

/// Decoding the encoding of `l`'s addresses yields their canonical forms
/// and consumes exactly their bytes, whatever bytes follow them.
proof fn lemma_addr_items_round_trip(l: Seq<Address>, rest: Seq<u8>)
    ensures
        addr_list_items_deser(addr_list_items_ser(l) + rest, l.len()) == Ok::<
            (Seq<Address>, int),
            DeserError,
        >((canon_addr_list(l), ADDRESS_SIZE * l.len())),
    decreases l.len(),
{
    if l.len() == 0 {
        assert(canon_addr_list(l) =~= Seq::<Address>::empty());
    } else {
        let n = l.len();
        let s = addr_list_items_ser(l) + rest;
        let tail = addr_list_items_ser(l.skip(1)) + rest;
        assert(s =~= addr_ser(l[0]) + tail);
        lemma_address_round_trip(l[0], tail);
        assert(addr_deser(s) == Ok::<(Address, int), DeserError>(
            (canon_addr(l[0]), ADDRESS_SIZE as int),
        ));
        assert(s.skip(ADDRESS_SIZE as int) =~= tail);
        lemma_addr_items_round_trip(l.skip(1), rest);
        assert(l.skip(1).len() == n - 1);
        assert(addr_list_items_deser(tail, (n - 1) as nat) == Ok::<(Seq<Address>, int), DeserError>(
            (canon_addr_list(l.skip(1)), ADDRESS_SIZE * (n - 1)),
        ));
        assert(addr_list_items_deser(s, n) == Ok::<(Seq<Address>, int), DeserError>(
            (
                seq![canon_addr(l[0])] + canon_addr_list(l.skip(1)),
                ADDRESS_SIZE + ADDRESS_SIZE * (n - 1),
            ),
        ));
        assert(canon_addr_list(l.skip(1)) =~= canon_addr_list(l).skip(1));
        assert(seq![canon_addr(l[0])] + canon_addr_list(l.skip(1)) =~= canon_addr_list(l));
        assert(ADDRESS_SIZE + ADDRESS_SIZE * (n - 1) == ADDRESS_SIZE * n) by (nonlinear_arith);
    }
}

/// Decoding the encoding of an address list of at most 255 entries
/// yields the canonical form of each entry, in order, and consumes
/// exactly the list's bytes, whatever bytes follow them.
pub proof fn lemma_addr_list_round_trip(l: Seq<Address>, rest: Seq<u8>)
    requires
        l.len() <= 255,
    ensures
        addr_list_deser(addr_list_ser(l) + rest) == Ok::<(Seq<Address>, int), DeserError>(
            (canon_addr_list(l), 1 + ADDRESS_SIZE * l.len()),
        ),
{
    let s = addr_list_ser(l) + rest;
    assert(s[0] == l.len() as u8);
    assert(s.skip(1) =~= addr_list_items_ser(l) + rest);
    lemma_addr_items_round_trip(l, rest);
}

/// A list whose addresses are all canonical comes back exactly as it
/// went in.
pub proof fn lemma_addr_list_round_trip_canonical(l: Seq<Address>, rest: Seq<u8>)
    requires
        l.len() <= 255,
        forall|i: int| 0 <= i < l.len() ==> canon_addr(l[i]) == l[i],
    ensures
        addr_list_deser(addr_list_ser(l) + rest) == Ok::<(Seq<Address>, int), DeserError>(
            (l, 1 + ADDRESS_SIZE * l.len()),
        ),
{
    lemma_addr_list_round_trip(l, rest);
    assert(canon_addr_list(l) =~= l);
}

/// An empty source fails to decode as an address list with
/// `UnexpectedEnd`; so does one whose count byte promises more address
/// bytes than follow.
pub proof fn lemma_addr_list_truncated(s: Seq<u8>)
    requires
        s.len() == 0 || s.len() < 1 + ADDRESS_SIZE * s[0],
    ensures
        addr_list_deser(s) == Err::<(Seq<Address>, int), DeserError>(DeserError::UnexpectedEnd),
{
    if s.len() > 0 {
        lemma_addr_items_deser_short(s.skip(1), s[0] as nat);
    }
}

/// Fewer than `18 n` bytes cannot hold `n` addresses.
proof fn lemma_addr_items_deser_short(s: Seq<u8>, n: nat)
    requires
        s.len() < ADDRESS_SIZE * n,
    ensures
        addr_list_items_deser(s, n) == Err::<(Seq<Address>, int), DeserError>(
            DeserError::UnexpectedEnd,
        ),
    decreases n,
{
    assert(ADDRESS_SIZE == 18);
    if n > 0 && s.len() >= ADDRESS_SIZE {
        lemma_addr_items_deser_short(s.skip(ADDRESS_SIZE as int), (n - 1) as nat);
    }
}

} // verus!
