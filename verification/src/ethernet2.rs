use vstd::prelude::*;
use crate::addr::MacAddress;
use crate::fail::Fail;
use crate::wire::copy_range;

verus! {

/// Length of an Ethernet-II header on the wire.
pub const ETHERNET2_HEADER_LEN: usize = 14;

/// The only ether-type this stack forwards; anything else is dropped.
#[derive(Clone, Copy, Debug, PartialEq, Eq, Structural)]
pub enum EtherType2 {
    Ipv4,
}

/// An Ethernet-II frame header.
#[derive(Clone, Copy, Debug, PartialEq, Eq, Structural)]
pub struct Ethernet2Header {
    pub dst_addr: MacAddress,
    pub src_addr: MacAddress,
    pub ether_type: EtherType2,
}

/// The wire image of `h` followed by `payload`.
pub open spec fn spec_serialize_eth(h: Ethernet2Header, payload: Seq<u8>) -> Seq<u8> {
    h.dst_addr@ + h.src_addr@ + seq![0x08u8, 0x00u8] + payload
}

/// What parsing a raw frame yields: the header and the payload, or nothing
/// when the frame is short or carries a foreign ether-type.
pub open spec fn spec_parse_eth(b: Seq<u8>) -> Option<(Ethernet2Header, Seq<u8>)> {
    if b.len() < 14 {
        None
    } else if !(b[12] == 0x08u8 && b[13] == 0x00u8) {
        None
    } else {
        Some(
            (
                Ethernet2Header {
                    dst_addr: MacAddress {
                        b0: b[0],
                        b1: b[1],
                        b2: b[2],
                        b3: b[3],
                        b4: b[4],
                        b5: b[5],
                    },
                    src_addr: MacAddress {
                        b0: b[6],
                        b1: b[7],
                        b2: b[8],
                        b3: b[9],
                        b4: b[10],
                        b5: b[11],
                    },
                    ether_type: EtherType2::Ipv4,
                },
                b.skip(14),
            ),
        )
    }
}

/// Serializing then parsing gives back exactly the header and payload.
pub proof fn lemma_eth_round_trip(h: Ethernet2Header, payload: Seq<u8>)
    ensures
        spec_parse_eth(spec_serialize_eth(h, payload)) == Some((h, payload)),
{
    let b = spec_serialize_eth(h, payload);
    assert(b.len() == 14 + payload.len());
    assert(b[12] == 0x08u8);
    assert(b[13] == 0x00u8);
    let parsed = spec_parse_eth(b).unwrap();
    assert(parsed.0 == h);
    assert(b.skip(14) =~= payload);
}

impl Ethernet2Header {
    /// Renders this header followed by `payload` as one raw frame.
    pub fn serialize(&self, payload: &Vec<u8>) -> (r: Vec<u8>)
        ensures
            r@ == spec_serialize_eth(*self, payload@),
    {
        let mut r: Vec<u8> = Vec::new();
        r.push(self.dst_addr.b0);
        r.push(self.dst_addr.b1);
        r.push(self.dst_addr.b2);
        r.push(self.dst_addr.b3);
        r.push(self.dst_addr.b4);
        r.push(self.dst_addr.b5);
        r.push(self.src_addr.b0);
        r.push(self.src_addr.b1);
        r.push(self.src_addr.b2);
        r.push(self.src_addr.b3);
        r.push(self.src_addr.b4);
        r.push(self.src_addr.b5);
        r.push(0x08);
        r.push(0x00);
        assert(r@ =~= spec_serialize_eth(*self, payload@.take(0)));
        let mut i: usize = 0;
        let n = payload.len();
        while i < n
            invariant
                i <= n,
                n == payload@.len(),
                r@ == spec_serialize_eth(*self, payload@.take(i as int)),
            decreases n - i,
        {
            r.push(payload[i]);
            i = i + 1;
            assert(r@ =~= spec_serialize_eth(*self, payload@.take(i as int)));
        }
        assert(payload@.take(n as int) =~= payload@);
        r
    }

    /// Splits a raw frame into its Ethernet-II header and payload.
    pub fn parse(b: &Vec<u8>) -> (r: Result<(Ethernet2Header, Vec<u8>), Fail>)
        ensures
            match r {
                Ok((h, p)) => spec_parse_eth(b@) == Some((h, p@)),
                Err(e) => spec_parse_eth(b@) is None && e == Fail::Malformed,
            },
    {
        let n = b.len();
        if n < 14 {
            return Err(Fail::Malformed);
        }
        if !(b[12] == 0x08 && b[13] == 0x00) {
            return Err(Fail::Malformed);
        }
        let h = Ethernet2Header {
            dst_addr: MacAddress { b0: b[0], b1: b[1], b2: b[2], b3: b[3], b4: b[4], b5: b[5] },
            src_addr: MacAddress { b0: b[6], b1: b[7], b2: b[8], b3: b[9], b4: b[10], b5: b[11] },
            ether_type: EtherType2::Ipv4,
        };
        let p = copy_range(b, 14, n);
        assert(b@.subrange(14, n as int) =~= b@.skip(14));
        Ok((h, p))
    }
}

} // verus!
