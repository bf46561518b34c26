use vstd::prelude::*;

verus! {

/// A 48-bit Ethernet hardware address, stored octet by octet in wire order.
#[derive(Clone, Copy, Debug, PartialEq, Eq, Structural)]
pub struct MacAddress {
    pub b0: u8,
    pub b1: u8,
    pub b2: u8,
    pub b3: u8,
    pub b4: u8,
    pub b5: u8,
}

impl MacAddress {
    /// The six octets of this address, in wire order.
    pub open spec fn view(self) -> Seq<u8> {
        seq![self.b0, self.b1, self.b2, self.b3, self.b4, self.b5]
    }

    pub fn new(b0: u8, b1: u8, b2: u8, b3: u8, b4: u8, b5: u8) -> (r: MacAddress)
        ensures
            r == (MacAddress { b0, b1, b2, b3, b4, b5 }),
    {
        MacAddress { b0, b1, b2, b3, b4, b5 }
    }

    /// The all-ones broadcast address, used when no neighbor entry is known.
    pub fn broadcast() -> (r: MacAddress)
        ensures
            r == (MacAddress { b0: 0xff, b1: 0xff, b2: 0xff, b3: 0xff, b4: 0xff, b5: 0xff }),
    {
        MacAddress { b0: 0xff, b1: 0xff, b2: 0xff, b3: 0xff, b4: 0xff, b5: 0xff }
    }
}

/// An IPv4 address, stored octet by octet in wire order.
#[derive(Clone, Copy, Debug, PartialEq, Eq, Structural)]
pub struct Ipv4Addr {
    pub o0: u8,
    pub o1: u8,
    pub o2: u8,
    pub o3: u8,
}

impl Ipv4Addr {
    /// The four octets of this address, in wire order.
    pub open spec fn view(self) -> Seq<u8> {
        seq![self.o0, self.o1, self.o2, self.o3]
    }

    pub fn new(o0: u8, o1: u8, o2: u8, o3: u8) -> (r: Ipv4Addr)
        ensures
            r == (Ipv4Addr { o0, o1, o2, o3 }),
    {
        Ipv4Addr { o0, o1, o2, o3 }
    }
}

/// An IPv4 address together with a TCP port: one side of a connection.
#[derive(Clone, Copy, Debug, PartialEq, Eq, Structural)]
pub struct Endpoint {
    pub addr: Ipv4Addr,
    pub port: u16,
}

impl Endpoint {
    pub fn new(addr: Ipv4Addr, port: u16) -> (r: Endpoint)
        ensures
            r == (Endpoint { addr, port }),
    {
        Endpoint { addr, port }
    }
}

} // verus!
