use vstd::prelude::*;
use crate::addr::Ipv4Addr;
use crate::checksum::{spec_checksum, valid_sum, compute_checksum, internet_sum,
    lemma_inserted_checksum_validates};
use crate::fail::Fail;
use crate::wire::{be16, word16, push_be16, push_all, copy_range, read_be16};

verus! {

/// Length of an IPv4 header without options, the only form this stack emits
/// or accepts.
pub const IPV4_HEADER_LEN: usize = 20;

/// The only IP protocol this stack carries.
#[derive(Clone, Copy, Debug, PartialEq, Eq, Structural)]
pub enum Ipv4Protocol2 {
    Tcp,
}

/// An IPv4 datagram header; the fields the stack does not act on
/// (TOS, id, TTL) are fixed at serialization and ignored on parse.
#[derive(Clone, Copy, Debug, PartialEq, Eq, Structural)]
pub struct Ipv4Header {
    pub src_addr: Ipv4Addr,
    pub dst_addr: Ipv4Addr,
    pub protocol: Ipv4Protocol2,
}

/// The first ten header bytes: version/IHL 4/5, TOS 0, total length,
/// identification 0, no fragmentation, TTL 64, protocol TCP.
pub open spec fn ipv4_prefix(total_len: u16) -> Seq<u8> {
    seq![0x45u8, 0x00u8] + be16(total_len) + seq![0u8, 0u8, 0u8, 0u8, 64u8, 6u8]
}

/// The full 20-byte header image with checksum `c` in place.
pub open spec fn spec_ipv4_hdr(h: Ipv4Header, total_len: u16, c: u16) -> Seq<u8> {
    ipv4_prefix(total_len) + be16(c) + (h.src_addr@ + h.dst_addr@)
}

/// The header checksum: computed over the header with its checksum field zero.
pub open spec fn spec_ipv4_checksum(h: Ipv4Header, total_len: u16) -> u16 {
    spec_checksum(ipv4_prefix(total_len) + seq![0u8, 0u8] + (h.src_addr@ + h.dst_addr@))
}

/// The wire image of `h` followed by `payload`.
pub open spec fn spec_serialize_ipv4(h: Ipv4Header, payload: Seq<u8>) -> Seq<u8> {
    spec_ipv4_hdr(
        h,
        (20 + payload.len()) as u16,
        spec_ipv4_checksum(h, (20 + payload.len()) as u16),
    ) + payload
}

/// What parsing yields: the header and the payload the total-length field
/// delimits, or nothing when the datagram is short, not plain IPv4+TCP, has
/// an inconsistent length, or fails its header checksum.
pub open spec fn spec_parse_ipv4(b: Seq<u8>) -> Option<(Ipv4Header, Seq<u8>)> {
    if b.len() < 20 {
        None
    } else if b[0] != 0x45u8 {
        None
    } else if b[9] != 6u8 {
        None
    } else if !(20 <= word16(b[2], b[3]) <= b.len()) {
        None
    } else if !valid_sum(b.take(20)) {
        None
    } else {
        Some(
            (
                Ipv4Header {
                    src_addr: Ipv4Addr { o0: b[12], o1: b[13], o2: b[14], o3: b[15] },
                    dst_addr: Ipv4Addr { o0: b[16], o1: b[17], o2: b[18], o3: b[19] },
                    protocol: Ipv4Protocol2::Tcp,
                },
                b.subrange(20, word16(b[2], b[3]) as int),
            ),
        )
    }
}

/// Serializing then parsing gives back exactly the header and payload.
pub proof fn lemma_ipv4_round_trip(h: Ipv4Header, payload: Seq<u8>)
    requires
        payload.len() + 20 <= 0xFFFF,
    ensures
        spec_parse_ipv4(spec_serialize_ipv4(h, payload)) == Some((h, payload)),
{
    let tl = (20 + payload.len()) as u16;
    let c = spec_ipv4_checksum(h, tl);
    let x = ipv4_prefix(tl);
    let y = h.src_addr@ + h.dst_addr@;
    let hdr = spec_ipv4_hdr(h, tl, c);
    let b = spec_serialize_ipv4(h, payload);
    assert(x.len() == 10);
    assert(hdr.len() == 20);
    assert(b.len() == 20 + payload.len());
    assert(b.take(20) =~= hdr);
    assert(b[0] == 0x45u8);
    assert(b[9] == 6u8);
    assert(b[2] == be16(tl)[0]);
    assert(b[3] == be16(tl)[1]);
    crate::wire::lemma_be16_word(tl);
    assert(word16(b[2], b[3]) == tl);
    lemma_inserted_checksum_validates(x, y);
    assert(x + be16(c) + y =~= hdr);
    assert(valid_sum(hdr));
    assert(b[12] == h.src_addr.o0);
    assert(b[13] == h.src_addr.o1);
    assert(b[14] == h.src_addr.o2);
    assert(b[15] == h.src_addr.o3);
    assert(b[16] == h.dst_addr.o0);
    assert(b[17] == h.dst_addr.o1);
    assert(b[18] == h.dst_addr.o2);
    assert(b[19] == h.dst_addr.o3);
    assert(b.subrange(20, tl as int) =~= payload);
    let parsed = spec_parse_ipv4(b).unwrap();
    assert(parsed.0 == h);
    assert(parsed.1 == payload);
}

impl Ipv4Header {
    /// Renders this header, checksum included, followed by `payload`.
    pub fn serialize(&self, payload: &Vec<u8>) -> (r: Vec<u8>)
        requires
            payload@.len() + 20 <= 0xFFFF,
        ensures
            r@ == spec_serialize_ipv4(*self, payload@),
    {
        let tl: u16 = 20 + (payload.len() as u16);
        let mut hdr0: Vec<u8> = Vec::new();
        hdr0.push(0x45);
        hdr0.push(0x00);
        push_be16(&mut hdr0, tl);
        hdr0.push(0);
        hdr0.push(0);
        hdr0.push(0);
        hdr0.push(0);
        hdr0.push(64);
        hdr0.push(6);
        hdr0.push(0);
        hdr0.push(0);
        hdr0.push(self.src_addr.o0);
        hdr0.push(self.src_addr.o1);
        hdr0.push(self.src_addr.o2);
        hdr0.push(self.src_addr.o3);
        hdr0.push(self.dst_addr.o0);
        hdr0.push(self.dst_addr.o1);
        hdr0.push(self.dst_addr.o2);
        hdr0.push(self.dst_addr.o3);
        assert(hdr0@ =~= ipv4_prefix(tl) + seq![0u8, 0u8] + (self.src_addr@ + self.dst_addr@));
        let c = compute_checksum(&hdr0);
        let mut r: Vec<u8> = Vec::new();
        r.push(0x45);
        r.push(0x00);
        push_be16(&mut r, tl);
        r.push(0);
        r.push(0);
        r.push(0);
        r.push(0);
        r.push(64);
        r.push(6);
        push_be16(&mut r, c);
        r.push(self.src_addr.o0);
        r.push(self.src_addr.o1);
        r.push(self.src_addr.o2);
        r.push(self.src_addr.o3);
        r.push(self.dst_addr.o0);
        r.push(self.dst_addr.o1);
        r.push(self.dst_addr.o2);
        r.push(self.dst_addr.o3);
        assert(r@ =~= spec_ipv4_hdr(*self, tl, c));
        push_all(&mut r, payload);
        assert(r@ =~= spec_serialize_ipv4(*self, payload@));
        r
    }

    /// Splits a datagram into its header and the payload its length field
    /// delimits, validating the header checksum.
    pub fn parse(b: &Vec<u8>) -> (r: Result<(Ipv4Header, Vec<u8>), Fail>)
        ensures
            match r {
                Ok((h, p)) => spec_parse_ipv4(b@) == Some((h, p@)),
                Err(e) => spec_parse_ipv4(b@) is None && e == Fail::Malformed,
            },
    {
        let n = b.len();
        if n < 20 {
            return Err(Fail::Malformed);
        }
        if b[0] != 0x45 {
            return Err(Fail::Malformed);
        }
        if b[9] != 6 {
            return Err(Fail::Malformed);
        }
        let tl = read_be16(b, 2);
        if !(20 <= tl && (tl as usize) <= n) {
            return Err(Fail::Malformed);
        }
        let hdr = copy_range(b, 0, 20);
        assert(hdr@ =~= b@.take(20));
        let sum = internet_sum(&hdr);
        if sum != 0xFFFF {
            return Err(Fail::Malformed);
        }
        let h = Ipv4Header {
            src_addr: Ipv4Addr { o0: b[12], o1: b[13], o2: b[14], o3: b[15] },
            dst_addr: Ipv4Addr { o0: b[16], o1: b[17], o2: b[18], o3: b[19] },
            protocol: Ipv4Protocol2::Tcp,
        };
        let p = copy_range(b, 20, tl as usize);
        Ok((h, p))
    }
}

} // verus!
