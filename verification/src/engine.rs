use vstd::prelude::*;
use crate::addr::{Endpoint, Ipv4Addr, MacAddress};
use crate::conn::{Socket, State, UnackedSeg};
use crate::ethernet2::{Ethernet2Header, EtherType2, spec_serialize_eth, spec_parse_eth,
    lemma_eth_round_trip};
use crate::fail::Fail;
use crate::ipv4::{Ipv4Header, Ipv4Protocol2, spec_serialize_ipv4, spec_parse_ipv4,
    lemma_ipv4_round_trip};
use crate::segment::{TcpHeader, spec_serialize_tcp, spec_parse_tcp, lemma_tcp_round_trip};
use crate::seqnum::wrap32;

verus! {

/// A socket descriptor: a handle into the engine's table.
pub type FileDescriptor = u32;

/// Largest payload one segment may carry: the IPv4 total length is sixteen
/// bits and this stack does not fragment, so a payload plus the two 20-byte
/// headers must fit in one datagram.
pub const MAX_SEGMENT_PAYLOAD: usize = 65495;

/// Virtual-time delay before an unacknowledged segment is retransmitted.
pub const RTO_TICKS: u64 = 5;

/// Retransmissions attempted before an operation fails with a timeout.
pub const RETRY_LIMIT: u32 = 3;

/// The result of polling an asynchronous socket operation.
#[derive(Debug, PartialEq, Eq, Structural)]
pub enum Poll<T> {
    Ready(T),
    Pending,
}

/// The full wire image of one outbound segment: Ethernet around IPv4 around
/// TCP around the payload.
pub open spec fn spec_frame(
    src_mac: MacAddress,
    dst_mac: MacAddress,
    src_ip: Ipv4Addr,
    dst_ip: Ipv4Addr,
    th: TcpHeader,
    payload: Seq<u8>,
) -> Seq<u8> {
    spec_serialize_eth(
        Ethernet2Header { dst_addr: dst_mac, src_addr: src_mac, ether_type: EtherType2::Ipv4 },
        spec_serialize_ipv4(
            Ipv4Header { src_addr: src_ip, dst_addr: dst_ip, protocol: Ipv4Protocol2::Tcp },
            spec_serialize_tcp(th, src_ip, dst_ip, payload),
        ),
    )
}

/// What receiving a raw frame yields once all three layers parse and the
/// checksums validate.
pub open spec fn spec_rx(b: Seq<u8>) -> Option<(Ethernet2Header, Ipv4Header, TcpHeader, Seq<u8>)> {
    match spec_parse_eth(b) {
        None => None,
        Some((eh, ip_bytes)) => match spec_parse_ipv4(ip_bytes) {
            None => None,
            Some((ih, tcp_bytes)) => match spec_parse_tcp(ih.src_addr, ih.dst_addr, tcp_bytes, true) {
                None => None,
                Some((th, payload)) => Some((eh, ih, th, payload)),
            },
        },
    }
}

/// Round trip through the whole stack: a frame built from a header and
/// payload parses back, checksums validated, to exactly those values.
pub proof fn lemma_frame_round_trip(
    src_mac: MacAddress,
    dst_mac: MacAddress,
    src_ip: Ipv4Addr,
    dst_ip: Ipv4Addr,
    th: TcpHeader,
    payload: Seq<u8>,
)
    requires
        payload.len() + 40 <= 0xFFFF,
    ensures
        ({
            let eh = Ethernet2Header {
                dst_addr: dst_mac,
                src_addr: src_mac,
                ether_type: EtherType2::Ipv4,
            };
            let ih = Ipv4Header { src_addr: src_ip, dst_addr: dst_ip, protocol: Ipv4Protocol2::Tcp };
            spec_rx(spec_frame(src_mac, dst_mac, src_ip, dst_ip, th, payload)) == Some(
                (eh, ih, th, payload),
            )
        }),
{
    let eh = Ethernet2Header { dst_addr: dst_mac, src_addr: src_mac, ether_type: EtherType2::Ipv4 };
    let ih = Ipv4Header { src_addr: src_ip, dst_addr: dst_ip, protocol: Ipv4Protocol2::Tcp };
    let tcp_bytes = spec_serialize_tcp(th, src_ip, dst_ip, payload);
    let ip_bytes = spec_serialize_ipv4(ih, tcp_bytes);
    lemma_tcp_round_trip(th, src_ip, dst_ip, payload);
    lemma_ipv4_round_trip(ih, tcp_bytes);
    lemma_eth_round_trip(eh, ip_bytes);
}

/// There is a socket with descriptor `fd`.
pub open spec fn has_fd(s: Seq<Socket>, fd: u32) -> bool {
    exists|i: int| 0 <= i < s.len() && s[i].fd == fd
}

/// The index of the socket with descriptor `fd` (descriptors are unique).
pub open spec fn fd_index(s: Seq<Socket>, fd: u32) -> int {
    choose|i: int| 0 <= i < s.len() && s[i].fd == fd
}

/// Some socket has already bound this local address tuple.
pub open spec fn tuple_bound(s: Seq<Socket>, ep: Endpoint) -> bool {
    exists|i: int| 0 <= i < s.len() && s[i].local == Some(ep)
}

/// A neighbor entry for `ip` is present.
pub open spec fn has_neighbor(nb: Seq<(Ipv4Addr, MacAddress)>, ip: Ipv4Addr) -> bool {
    exists|i: int| 0 <= i < nb.len() && nb[i].0 == ip
}

/// The MAC frames to `ip` are addressed to: the neighbor entry if one is
/// known, the broadcast address otherwise.
pub open spec fn neighbor_mac(nb: Seq<(Ipv4Addr, MacAddress)>, ip: Ipv4Addr) -> MacAddress {
    if has_neighbor(nb, ip) {
        nb[choose|i: int| 0 <= i < nb.len() && nb[i].0 == ip].1
    } else {
        MacAddress { b0: 0xff, b1: 0xff, b2: 0xff, b3: 0xff, b4: 0xff, b5: 0xff }
    }
}

/// Structural soundness of one socket record: connected states carry both
/// endpoints, listeners carry their binding, queued payloads fit a segment.
pub open spec fn sock_wf(s: Socket) -> bool {
    &&& (s.state != State::Closed && s.state != State::Listen ==> s.local is Some
        && s.remote is Some)
    &&& (s.state == State::Listen ==> s.local is Some)
    &&& (forall|k: int| 0 <= k < s.send_queue@.len() ==> #[trigger] s.send_queue@[k]@.len()
        <= MAX_SEGMENT_PAYLOAD)
}

/// The engine: the exclusive owner of every connection and listener record,
/// the outbound frame queue, and the virtual clock.
pub struct Engine {
    /// This host's hardware address, stamped on every outbound frame.
    pub mac: MacAddress,
    /// This host's IPv4 address; frames to any other address are dropped.
    pub ip: Ipv4Addr,
    /// The virtual clock; advanced only by the driving caller.
    pub now: u64,
    /// Next descriptor to hand out.
    pub next_fd: u32,
    /// Next ephemeral port for an active open without a binding.
    pub next_port: u16,
    /// Every socket record, keyed by descriptor.
    pub socks: Vec<Socket>,
    /// Frames produced and not yet drained by the transport, oldest first.
    pub out_queue: Vec<Vec<u8>>,
    /// Static neighbor table: IPv4 address to MAC.
    pub neighbors: Vec<(Ipv4Addr, MacAddress)>,
}

impl Engine {
    /// Well-formedness: descriptors are unique and below the allocator mark,
    /// neighbor entries are unique per address, every record is sound, and
    /// every descriptor queued for accept names a record in the table.
    pub open spec fn wf(self) -> bool {
        &&& (forall|i: int, j: int|
            0 <= i < j < self.socks@.len() ==> self.socks@[i].fd != self.socks@[j].fd)
        &&& (forall|i: int| 0 <= i < self.socks@.len() ==> #[trigger] self.socks@[i].fd
            < self.next_fd)
        &&& (forall|i: int| 0 <= i < self.socks@.len() ==> sock_wf(#[trigger] self.socks@[i]))
        &&& (forall|i: int, j: int|
            0 <= i < j < self.neighbors@.len() ==> self.neighbors@[i].0 != self.neighbors@[j].0)
        &&& (forall|i: int, k: int|
            0 <= i < self.socks@.len() && 0 <= k < self.socks@[i].ready@.len() ==> has_fd(
                self.socks@,
                #[trigger] self.socks@[i].ready@[k],
            ))
    }

    pub fn new(mac: MacAddress, ip: Ipv4Addr, now: u64) -> (e: Engine)
        ensures
            e.wf(),
            e.mac == mac,
            e.ip == ip,
            e.now == now,
            e.socks@.len() == 0,
            e.out_queue@.len() == 0,
            e.neighbors@.len() == 0,
            e.next_fd == 1,
            e.next_port == 32768,
    {
        Engine {
            mac,
            ip,
            now,
            next_fd: 1,
            next_port: 32768,
            socks: Vec::new(),
            out_queue: Vec::new(),
            neighbors: Vec::new(),
        }
    }

    /// Records the MAC for `ip`, replacing any earlier entry.
    pub fn add_neighbor(&mut self, ip: Ipv4Addr, mac: MacAddress)
        requires
            old(self).wf(),
        ensures
            final(self).wf(),
            final(self).socks == old(self).socks,
            final(self).out_queue == old(self).out_queue,
            final(self).now == old(self).now,
            final(self).mac == old(self).mac,
            final(self).ip == old(self).ip,
            final(self).next_fd == old(self).next_fd,
            final(self).next_port == old(self).next_port,
            has_neighbor(final(self).neighbors@, ip),
            neighbor_mac(final(self).neighbors@, ip) == mac,
    {
        match self.find_neighbor_index(ip) {
            Some(i) => {
                self.neighbors[i] = (ip, mac);
                proof {
                    assert(self.neighbors@[i as int].0 == ip);
                    assert(forall|k: int|
                        0 <= k < self.neighbors@.len() && k != i ==> self.neighbors@[k].0 != ip);
                    let w = choose|k: int|
                        0 <= k < self.neighbors@.len() && self.neighbors@[k].0 == ip;
                    assert(w == i);
                }
            },
            None => {
                let n = self.neighbors.len();
                self.neighbors.push((ip, mac));
                proof {
                    assert(self.neighbors@[n as int].0 == ip);
                    assert(forall|k: int|
                        0 <= k < self.neighbors@.len() && k != n ==> self.neighbors@[k].0 != ip);
                    let w = choose|k: int|
                        0 <= k < self.neighbors@.len() && self.neighbors@[k].0 == ip;
                    assert(w == n);
                }
            },
        }
    }

    /// The index of the neighbor entry for `ip`, if one is present.
    fn find_neighbor_index(&self, ip: Ipv4Addr) -> (r: Option<usize>)
        ensures
            match r {
                Some(i) => 0 <= i < self.neighbors@.len() && self.neighbors@[i as int].0 == ip,
                None => !has_neighbor(self.neighbors@, ip),
            },
    {
        let n = self.neighbors.len();
        let mut i: usize = 0;
        while i < n
            invariant
                i <= n,
                n == self.neighbors@.len(),
                forall|j: int| 0 <= j < i ==> self.neighbors@[j].0 != ip,
            decreases n - i,
        {
            if self.neighbors[i].0 == ip {
                return Some(i);
            }
            i = i + 1;
        }
        None
    }

    /// Moves the virtual clock forward; timers are re-checked on the next
    /// scheduler poll.
    pub fn advance_clock(&mut self, now: u64)
        requires
            old(self).wf(),
            now >= old(self).now,
        ensures
            final(self).wf(),
            final(self).now == now,
            final(self).socks == old(self).socks,
            final(self).out_queue == old(self).out_queue,
            final(self).mac == old(self).mac,
            final(self).ip == old(self).ip,
            final(self).next_fd == old(self).next_fd,
            final(self).next_port == old(self).next_port,
            final(self).neighbors == old(self).neighbors,
    {
        self.now = now;
    }

    /// Frames waiting for the transport to drain.
    pub fn frame_count(&self) -> (n: usize)
        ensures
            n == self.out_queue@.len(),
    {
        self.out_queue.len()
    }

    /// Hands the oldest produced frame to the transport.
    pub fn pop_frame(&mut self) -> (f: Vec<u8>)
        requires
            old(self).wf(),
            old(self).out_queue@.len() > 0,
        ensures
            final(self).wf(),
            f == old(self).out_queue@[0],
            final(self).out_queue@ == old(self).out_queue@.skip(1),
            final(self).socks == old(self).socks,
            final(self).now == old(self).now,
            final(self).mac == old(self).mac,
            final(self).ip == old(self).ip,
            final(self).next_fd == old(self).next_fd,
            final(self).next_port == old(self).next_port,
            final(self).neighbors == old(self).neighbors,
    {
        let f = self.out_queue.remove(0);
        assert(self.out_queue@ =~= old(self).out_queue@.skip(1));
        f
    }

    /// Allocates a new unbound, unconnected socket record.
    pub fn tcp_socket(&mut self) -> (fd: FileDescriptor)
        requires
            old(self).wf(),
            old(self).next_fd < 0xFFFF_FFFFu32,
        ensures
            final(self).wf(),
            fd == old(self).next_fd,
            final(self).next_fd == old(self).next_fd + 1,
            final(self).socks@.len() == old(self).socks@.len() + 1,
            final(self).socks@.subrange(0, old(self).socks@.len() as int) == old(self).socks@,
            ({
                let s = final(self).socks@[old(self).socks@.len() as int];
                &&& s.fd == fd
                &&& s.state == State::Closed
                &&& s.local is None
                &&& s.remote is None
                &&& s.error is None
                &&& s.recv_queue@.len() == 0
                &&& s.send_queue@.len() == 0
                &&& s.pending_tx@.len() == 0
                &&& s.ready@.len() == 0
                &&& s.pending_children == 0
                &&& s.unacked is None
            }),
            has_fd(final(self).socks@, fd),
            !has_fd(old(self).socks@, fd),
            final(self).out_queue == old(self).out_queue,
            final(self).now == old(self).now,
            final(self).mac == old(self).mac,
            final(self).ip == old(self).ip,
            final(self).next_port == old(self).next_port,
            final(self).neighbors == old(self).neighbors,
    {
        let fd = self.next_fd;
        self.next_fd = self.next_fd + 1;
        self.socks.push(Socket::new(fd));
        proof {
            assert(self.socks@[old(self).socks@.len() as int].fd == fd);
            assert(self.socks@.subrange(0, old(self).socks@.len() as int) =~= old(self).socks@);
        }
        fd
    }

    /// The index of the socket with descriptor `fd`, if any.
    fn find_index(&self, fd: u32) -> (r: Option<usize>)
        ensures
            match r {
                Some(i) => 0 <= i < self.socks@.len() && self.socks@[i as int].fd == fd,
                None => !has_fd(self.socks@, fd),
            },
    {
        let n = self.socks.len();
        let mut i: usize = 0;
        while i < n
            invariant
                i <= n,
                n == self.socks@.len(),
                forall|j: int| 0 <= j < i ==> self.socks@[j].fd != fd,
            decreases n - i,
        {
            if self.socks[i].fd == fd {
                return Some(i);
            }
            i = i + 1;
        }
        None
    }

    /// The state of the socket with descriptor `fd`, if it exists.
    pub fn state_of(&self, fd: FileDescriptor) -> (r: Option<State>)
        requires
            self.wf(),
        ensures
            match r {
                Some(st) => has_fd(self.socks@, fd) && st == self.socks@[fd_index(
                    self.socks@,
                    fd,
                )].state,
                None => !has_fd(self.socks@, fd),
            },
    {
        match self.find_index(fd) {
            Some(i) => {
                proof {
                    lemma_fd_index_is(self.socks@, fd, i as int);
                }
                Some(self.socks[i].state)
            },
            None => None,
        }
    }

    /// Binds `fd` to a local address tuple, or reports why it cannot be.
    #[verifier::loop_isolation(false)]
    pub fn tcp_bind(&mut self, fd: FileDescriptor, addr: Endpoint) -> (r: Result<(), Fail>)
        requires
            old(self).wf(),
        ensures
            final(self).wf(),
            ({
                let s = old(self).socks@;
                let i = fd_index(s, fd);
                match r {
                    Ok(()) => has_fd(s, fd) && s[i].state == State::Closed && s[i].local is None
                        && !tuple_bound(s, addr) && final(self).socks@ == s.update(
                        i,
                        Socket { local: Some(addr), ..s[i] },
                    ),
                    Err(Fail::InvalidState) => (!has_fd(s, fd) || s[i].state != State::Closed
                        || s[i].local is Some) && *final(self) == *old(self),
                    Err(Fail::AddressInUse) => has_fd(s, fd) && s[i].state == State::Closed
                        && s[i].local is None && tuple_bound(s, addr) && *final(self) == *old(
                        self,
                    ),
                    Err(_) => false,
                }
            }),
            final(self).out_queue == old(self).out_queue,
            final(self).now == old(self).now,
            final(self).next_fd == old(self).next_fd,
            final(self).next_port == old(self).next_port,
            final(self).mac == old(self).mac,
            final(self).ip == old(self).ip,
            final(self).neighbors == old(self).neighbors,
    {
        let i = match self.find_index(fd) {
            Some(i) => i,
            None => {
                return Err(Fail::InvalidState);
            },
        };
        proof {
            lemma_fd_index_is(self.socks@, fd, i as int);
        }
        if !matches!(self.socks[i].state, State::Closed) || self.socks[i].local.is_some() {
            return Err(Fail::InvalidState);
        }
        let n = self.socks.len();
        let mut j: usize = 0;
        while j < n
            invariant
                j <= n,
                n == self.socks@.len(),
                *self == *old(self),
                forall|k: int| 0 <= k < j ==> self.socks@[k].local != Some(addr),
            decreases n - j,
        {
            if let Some(b) = &self.socks[j].local {
                if b.addr == addr.addr && b.port == addr.port {
                    assert(self.socks@[j as int].local == Some(addr));
                    return Err(Fail::AddressInUse);
                }
            }
            j = j + 1;
        }
        let sock = &mut self.socks[i];
        sock.local = Some(addr);
        proof {
            assert(self.socks@ =~= old(self).socks@.update(
                i as int,
                Socket { local: Some(addr), ..old(self).socks@[i as int] },
            ));
            lemma_ready_live_frame(old(self).socks@, self.socks@);
        }
        Ok(())
    }

    /// Turns a bound, closed socket into a listener with the given backlog.
    pub fn tcp_listen(&mut self, fd: FileDescriptor, backlog: usize) -> (r: Result<(), Fail>)
        requires
            old(self).wf(),
        ensures
            final(self).wf(),
            ({
                let s = old(self).socks@;
                let i = fd_index(s, fd);
                match r {
                    Ok(()) => has_fd(s, fd) && s[i].state == State::Closed && s[i].local is Some
                        && final(self).socks@ == s.update(
                        i,
                        Socket { state: State::Listen, backlog, ..s[i] },
                    ),
                    Err(Fail::InvalidState) => (!has_fd(s, fd) || s[i].state != State::Closed
                        || s[i].local is None) && *final(self) == *old(self),
                    Err(_) => false,
                }
            }),
            final(self).out_queue == old(self).out_queue,
            final(self).now == old(self).now,
            final(self).next_fd == old(self).next_fd,
            final(self).next_port == old(self).next_port,
            final(self).mac == old(self).mac,
            final(self).ip == old(self).ip,
            final(self).neighbors == old(self).neighbors,
    {
        let i = match self.find_index(fd) {
            Some(i) => i,
            None => {
                return Err(Fail::InvalidState);
            },
        };
        proof {
            lemma_fd_index_is(self.socks@, fd, i as int);
        }
        if !matches!(self.socks[i].state, State::Closed) || self.socks[i].local.is_none() {
            return Err(Fail::InvalidState);
        }
        let sock = &mut self.socks[i];
        sock.state = State::Listen;
        sock.backlog = backlog;
        proof {
            assert(self.socks@ =~= old(self).socks@.update(
                i as int,
                Socket { state: State::Listen, backlog, ..old(self).socks@[i as int] },
            ));
            lemma_ready_live_frame(old(self).socks@, self.socks@);
        }
        Ok(())
    }
}

/// When the next retransmission of a segment armed now falls due.
pub open spec fn spec_next_deadline(now: u64) -> u64 {
    if now + RTO_TICKS <= u64::MAX {
        (now + RTO_TICKS) as u64
    } else {
        u64::MAX
    }
}

/// An active connection matching the exact four-tuple sits at index `i`.
pub open spec fn conn_match(s: Seq<Socket>, le: Endpoint, re: Endpoint, i: int) -> bool {
    &&& 0 <= i < s.len()
    &&& s[i].local == Some(le)
    &&& s[i].remote == Some(re)
    &&& s[i].state != State::Closed
    &&& s[i].state != State::Listen
}

pub open spec fn has_conn(s: Seq<Socket>, le: Endpoint, re: Endpoint) -> bool {
    exists|i: int| conn_match(s, le, re, i)
}

/// A listener bound to `le` (wildcard source) sits at index `i`.
pub open spec fn listener_match(s: Seq<Socket>, le: Endpoint, i: int) -> bool {
    &&& 0 <= i < s.len()
    &&& s[i].state == State::Listen
    &&& s[i].local == Some(le)
}

pub open spec fn has_listener(s: Seq<Socket>, le: Endpoint) -> bool {
    exists|i: int| listener_match(s, le, i)
}

impl Engine {
    /// The deadline for a segment armed at the current virtual time.
    fn arm_deadline(&self) -> (d: u64)
        ensures
            d == spec_next_deadline(self.now),
    {
        if self.now <= u64::MAX - RTO_TICKS {
            self.now + RTO_TICKS
        } else {
            u64::MAX
        }
    }

    /// The MAC to address frames for `ip` to.
    fn lookup_neighbor(&self, ip: Ipv4Addr) -> (m: MacAddress)
        requires
            self.wf(),
        ensures
            m == neighbor_mac(self.neighbors@, ip),
    {
        match self.find_neighbor_index(ip) {
            Some(i) => {
                proof {
                    let w = choose|k: int|
                        0 <= k < self.neighbors@.len() && self.neighbors@[k].0 == ip;
                    assert(w == i);
                }
                self.neighbors[i].1
            },
            None => MacAddress { b0: 0xff, b1: 0xff, b2: 0xff, b3: 0xff, b4: 0xff, b5: 0xff },
        }
    }

    /// Begins an active open on a fresh descriptor; the SYN goes on the wire
    /// at the next scheduler poll and is retransmitted until acknowledged.
    pub fn tcp_connect(&mut self, fd: FileDescriptor, remote: Endpoint) -> (fut: ConnectFuture)
        requires
            old(self).wf(),
            old(self).next_port < 0xFFFFu16,
        ensures
            final(self).wf(),
            fut.fd == fd,
            final(self).out_queue == old(self).out_queue,
            final(self).now == old(self).now,
            final(self).socks@.len() == old(self).socks@.len(),
            final(self).mac == old(self).mac,
            final(self).ip == old(self).ip,
            final(self).neighbors == old(self).neighbors,
            final(self).next_fd == old(self).next_fd,
            ({
                let s = old(self).socks@;
                let i = fd_index(s, fd);
                if has_fd(s, fd) && s[i].state == State::Closed && s[i].remote is None && s[i].error
                    is None {
                    let lport = if s[i].local is Some {
                        s[i].local.unwrap().port
                    } else {
                        old(self).next_port
                    };
                    let le = if s[i].local is Some {
                        s[i].local.unwrap()
                    } else {
                        Endpoint { addr: old(self).ip, port: lport }
                    };
                    let isn = 0u32;
                    let fr = spec_frame(
                        old(self).mac,
                        neighbor_mac(old(self).neighbors@, remote.addr),
                        le.addr,
                        remote.addr,
                        crate::conn::spec_syn_segment(lport, remote.port, isn),
                        Seq::<u8>::empty(),
                    );
                    let t = final(self).socks@[i];
                    &&& t.fd == fd
                    &&& t.state == State::SynSent
                    &&& t.local == Some(le)
                    &&& t.remote == Some(remote)
                    &&& t.isn == isn
                    &&& t.snd_nxt == wrap32(isn + 1)
                    &&& t.error is None
                    &&& t.pending_tx@.len() == s[i].pending_tx@.len() + 1
                    &&& t.pending_tx@.last()@ == fr
                    &&& t.unacked is Some
                    &&& t.unacked.unwrap().frame@ == fr
                    &&& t.unacked.unwrap().seq_end == wrap32(isn + 1)
                    &&& t.unacked.unwrap().retries == 0
                    &&& t.unacked.unwrap().deadline == spec_next_deadline(old(self).now)
                    &&& t.recv_queue == s[i].recv_queue
                    &&& (forall|j: int| 0 <= j < s.len() && j != i ==> final(self).socks@[j] == s[j])
                    &&& fut.started
                    &&& final(self).next_port == (if s[i].local is Some {
                        old(self).next_port
                    } else {
                        (old(self).next_port + 1) as u16
                    })
                } else {
                    *final(self) == *old(self) && !fut.started
                }
            }),
    {
        let i = match self.find_index(fd) {
            Some(i) => i,
            None => {
                return ConnectFuture { fd, started: false };
            },
        };
        proof {
            lemma_fd_index_is(self.socks@, fd, i as int);
        }
        if !matches!(self.socks[i].state, State::Closed) || self.socks[i].remote.is_some()
            || self.socks[i].error.is_some() {
            return ConnectFuture { fd, started: false };
        }
        let le = match &self.socks[i].local {
            Some(ep) => Endpoint { addr: ep.addr, port: ep.port },
            None => {
                let p = self.next_port;
                self.next_port = self.next_port + 1;
                Endpoint { addr: self.ip, port: p }
            },
        };
        let isn: u32 = 0;
        let dmac = self.lookup_neighbor(remote.addr);
        let th = TcpHeader {
            src_port: le.port,
            dst_port: remote.port,
            seq_num: isn,
            ack_num: 0,
            syn: true,
            ack: false,
            fin: false,
            rst: false,
            psh: false,
            window_size: crate::conn::ADVERTISED_WINDOW,
        };
        assert(th == crate::conn::spec_syn_segment(le.port, remote.port, isn));
        let empty: Vec<u8> = Vec::new();
        let frame = make_frame(self.mac, dmac, le.addr, remote.addr, &th, &empty);
        let frame2 = clone_frame(&frame);
        let deadline = self.arm_deadline();
        let sock = &mut self.socks[i];
        sock.state = State::SynSent;
        sock.local = Some(le);
        sock.remote = Some(remote);
        sock.remote_mac = dmac;
        sock.isn = isn;
        sock.snd_nxt = crate::seqnum::seq_add(isn, 1);
        sock.pending_tx.push(frame);
        sock.unacked = Some(
            UnackedSeg {
                frame: frame2,
                seq_end: crate::seqnum::seq_add(isn, 1),
                deadline,
                retries: 0,
            },
        );
        proof {
            lemma_ready_live_frame(old(self).socks@, self.socks@);
        }
        ConnectFuture { fd, started: true }
    }

    /// Queues `buf` for transmission on an established connection; the
    /// segment goes out, PSH+ACK, at the next scheduler poll.
    pub fn tcp_push(&mut self, fd: FileDescriptor, buf: Vec<u8>) -> (r: Result<PushFuture, Fail>)
        requires
            old(self).wf(),
            buf@.len() <= MAX_SEGMENT_PAYLOAD,
        ensures
            final(self).wf(),
            final(self).out_queue == old(self).out_queue,
            final(self).now == old(self).now,
            final(self).mac == old(self).mac,
            final(self).ip == old(self).ip,
            final(self).neighbors == old(self).neighbors,
            final(self).next_fd == old(self).next_fd,
            final(self).next_port == old(self).next_port,
            final(self).socks@.len() == old(self).socks@.len(),
            ({
                let s = old(self).socks@;
                let i = fd_index(s, fd);
                match r {
                    Ok(fut) => fut.fd == fd && has_fd(s, fd) && s[i].state == State::Established
                        && final(self).socks@[i].send_queue@ == s[i].send_queue@.push(buf)
                        && final(self).socks@[i].recv_queue == s[i].recv_queue
                        && final(self).socks@[i].state == State::Established && (forall|j: int|
                        0 <= j < s.len() && j != i ==> final(self).socks@[j] == s[j]),
                    Err(Fail::NotConnected) => (!has_fd(s, fd) || s[i].state != State::Established)
                        && *final(self) == *old(self),
                    Err(_) => false,
                }
            }),
    {
        let i = match self.find_index(fd) {
            Some(i) => i,
            None => {
                return Err(Fail::NotConnected);
            },
        };
        proof {
            lemma_fd_index_is(self.socks@, fd, i as int);
        }
        if !matches!(self.socks[i].state, State::Established) {
            return Err(Fail::NotConnected);
        }
        let sock = &mut self.socks[i];
        sock.send_queue.push(buf);
        proof {
            lemma_ready_live_frame(old(self).socks@, self.socks@);
        }
        Ok(PushFuture { fd })
    }

    /// An operation that will yield the next in-order payload.
    pub fn tcp_pop(&mut self, fd: FileDescriptor) -> (fut: PopFuture)
        requires
            old(self).wf(),
        ensures
            final(self).wf(),
            *final(self) == *old(self),
            fut.fd == fd,
    {
        PopFuture { fd }
    }

    /// An operation that will yield the next completed connection on a
    /// listener.
    pub fn tcp_accept(&mut self, fd: FileDescriptor) -> (fut: AcceptFuture)
        requires
            old(self).wf(),
        ensures
            final(self).wf(),
            *final(self) == *old(self),
            fut.fd == fd,
    {
        AcceptFuture { fd }
    }

    /// Closes a descriptor: pending operations on it resolve with
    /// `ConnectionClosed`, and an established connection opens teardown with
    /// a FIN at the next poll. Records are retained after closing — this
    /// engine never reuses a descriptor — so an operation polled later
    /// observes its terminal error rather than a dangling handle.
    pub fn tcp_close(&mut self, fd: FileDescriptor) -> (r: Result<(), Fail>)
        requires
            old(self).wf(),
        ensures
            final(self).wf(),
            final(self).out_queue == old(self).out_queue,
            final(self).socks@.len() == old(self).socks@.len(),
            final(self).now == old(self).now,
            final(self).mac == old(self).mac,
            final(self).ip == old(self).ip,
            final(self).neighbors == old(self).neighbors,
            final(self).next_fd == old(self).next_fd,
            final(self).next_port == old(self).next_port,
            ({
                let s = old(self).socks@;
                let i = fd_index(s, fd);
                match r {
                    Ok(()) => has_fd(s, fd) && (forall|j: int|
                        0 <= j < s.len() && j != i ==> final(self).socks@[j] == s[j]) && ({
                        let t = final(self).socks@[i];
                        &&& t.fd == s[i].fd
                        &&& t.local == s[i].local
                        &&& t.remote == s[i].remote
                        &&& if s[i].state == State::Listen || s[i].state == State::SynSent
                            || s[i].state == State::SynRcvd {
                            t.state == State::Closed && t.error == Some(Fail::ConnectionClosed)
                                && t.unacked is None && t.recv_queue == s[i].recv_queue
                                && t.ready == s[i].ready && t.pending_children
                                == s[i].pending_children
                        } else if s[i].state == State::Established || s[i].state
                            == State::CloseWait {
                            let fr = spec_frame(
                                old(self).mac,
                                s[i].remote_mac,
                                s[i].local.unwrap().addr,
                                s[i].remote.unwrap().addr,
                                crate::conn::spec_fin_segment(
                                    s[i].local.unwrap().port,
                                    s[i].remote.unwrap().port,
                                    s[i].snd_nxt,
                                    s[i].rcv_nxt,
                                ),
                                Seq::<u8>::empty(),
                            );
                            t.error == Some(Fail::ConnectionClosed) && t.state == (
                            if s[i].state == State::Established {
                                State::FinWait
                            } else {
                                State::LastAck
                            }) && t.snd_nxt == wrap32(s[i].snd_nxt + 1) && t.unacked is Some
                                && t.pending_tx@.len() == s[i].pending_tx@.len() + 1
                                && t.pending_tx@.last()@ == fr && t.unacked.unwrap().frame@ == fr
                                && t.unacked.unwrap().seq_end == wrap32(s[i].snd_nxt + 1)
                                && t.unacked.unwrap().retries == 0
                                && t.unacked.unwrap().deadline == spec_next_deadline(old(self).now)
                                && t.recv_queue == s[i].recv_queue
                        } else {
                            t == s[i]
                        }
                    }),
                    Err(Fail::InvalidState) => !has_fd(s, fd) && *final(self) == *old(self),
                    Err(_) => false,
                }
            }),
    {
        let i = match self.find_index(fd) {
            Some(i) => i,
            None => {
                return Err(Fail::InvalidState);
            },
        };
        proof {
            lemma_fd_index_is(self.socks@, fd, i as int);
        }
        let st = self.socks[i].state;
        match st {
            State::Listen | State::SynSent | State::SynRcvd => {
                let sock = &mut self.socks[i];
                sock.state = State::Closed;
                sock.error = Some(Fail::ConnectionClosed);
                sock.unacked = None;
                proof {
                    lemma_ready_live_frame(old(self).socks@, self.socks@);
                }
                Ok(())
            },
            State::Established | State::CloseWait => {
                let le = match &self.socks[i].local {
                    Some(ep) => Endpoint { addr: ep.addr, port: ep.port },
                    None => {
                        return Err(Fail::InvalidState);
                    },
                };
                let re = match &self.socks[i].remote {
                    Some(ep) => Endpoint { addr: ep.addr, port: ep.port },
                    None => {
                        return Err(Fail::InvalidState);
                    },
                };
                let th = TcpHeader {
                    src_port: le.port,
                    dst_port: re.port,
                    seq_num: self.socks[i].snd_nxt,
                    ack_num: self.socks[i].rcv_nxt,
                    syn: false,
                    ack: true,
                    fin: true,
                    rst: false,
                    psh: false,
                    window_size: crate::conn::ADVERTISED_WINDOW,
                };
                assert(th == crate::conn::spec_fin_segment(
                    le.port,
                    re.port,
                    self.socks@[i as int].snd_nxt,
                    self.socks@[i as int].rcv_nxt,
                ));
                let empty: Vec<u8> = Vec::new();
                let dmac = self.socks[i].remote_mac;
                let frame = make_frame(self.mac, dmac, le.addr, re.addr, &th, &empty);
                let frame2 = clone_frame(&frame);
                let deadline = self.arm_deadline();
                let fin_end = crate::seqnum::seq_add(self.socks[i].snd_nxt, 1);
                let sock = &mut self.socks[i];
                sock.state = if matches!(st, State::Established) {
                    State::FinWait
                } else {
                    State::LastAck
                };
                sock.error = Some(Fail::ConnectionClosed);
                sock.snd_nxt = fin_end;
                sock.pending_tx.push(frame);
                sock.unacked = Some(
                    UnackedSeg { frame: frame2, seq_end: fin_end, deadline, retries: 0 },
                );
                proof {
                    lemma_ready_live_frame(old(self).socks@, self.socks@);
                }
                Ok(())
            },
            _ => Ok(()),
        }
    }
}

/// How one scheduler poll may change one socket record: its generated
/// frames are drained, a due timer either retransmits or times the
/// connection out, and at most one queued payload goes on the wire.
pub open spec fn poll_step_rel(s: Socket, t: Socket, now: u64, mac: MacAddress) -> bool {
    &&& t.fd == s.fd
    &&& t.pending_tx@.len() == 0
    &&& t.recv_queue == s.recv_queue
    &&& t.local == s.local
    &&& t.remote == s.remote
    &&& t.rcv_nxt == s.rcv_nxt
    &&& (s.unacked is Some && s.unacked.unwrap().deadline <= now && s.unacked.unwrap().retries
        >= RETRY_LIMIT ==> t.state == State::Closed && t.error == Some(Fail::ConnectionTimedOut)
        && t.unacked is None)
    &&& (s.unacked is Some && s.unacked.unwrap().deadline <= now && s.unacked.unwrap().retries
        < RETRY_LIMIT ==> t.unacked is Some && t.unacked.unwrap().retries == s.unacked.unwrap().retries
        + 1 && t.unacked.unwrap().frame == s.unacked.unwrap().frame && t.unacked.unwrap().deadline
        == spec_next_deadline(now) && t.state == s.state && t.error == s.error)
    &&& (s.unacked is Some && s.unacked.unwrap().deadline > now ==> t.unacked == s.unacked
        && t.state == s.state && t.error == s.error && t.snd_nxt == s.snd_nxt && t.send_queue
        == s.send_queue)
    &&& (s.unacked is None && !(s.state == State::Established && s.send_queue@.len() > 0)
        ==> t.unacked is None && t.state == s.state && t.error == s.error && t.snd_nxt == s.snd_nxt
        && t.send_queue == s.send_queue)
    &&& (s.unacked is None && s.state == State::Established && s.send_queue@.len() > 0
        ==> t.state == State::Established && t.send_queue@ == s.send_queue@.skip(1) && t.unacked
        is Some && t.snd_nxt == wrap32(s.snd_nxt + s.send_queue@[0]@.len())
        && t.unacked.unwrap().seq_end == t.snd_nxt && t.unacked.unwrap().frame@ == spec_frame(
        mac,
        s.remote_mac,
        s.local.unwrap().addr,
        s.remote.unwrap().addr,
        crate::conn::spec_data_segment(
            s.local.unwrap().port,
            s.remote.unwrap().port,
            s.snd_nxt,
            s.rcv_nxt,
        ),
        s.send_queue@[0]@,
    ))
}

/// The byte strings of a queue of frames.
pub open spec fn frame_views(q: Seq<Vec<u8>>) -> Seq<Seq<u8>> {
    q.map_values(|v: Vec<u8>| v@)
}

/// The frames one scheduler poll puts on the wire for one socket, in order:
/// its generated frames oldest first, then a due retransmission, then at
/// most one newly built data segment.
pub open spec fn sock_emits(s: Socket, now: u64, mac: MacAddress) -> Seq<Seq<u8>> {
    frame_views(s.pending_tx@) + (if s.unacked is Some && s.unacked.unwrap().deadline <= now
        && s.unacked.unwrap().retries < RETRY_LIMIT {
        seq![s.unacked.unwrap().frame@]
    } else {
        Seq::<Seq<u8>>::empty()
    }) + (if s.unacked is None && s.state == State::Established && s.send_queue@.len() > 0 {
        seq![
            spec_frame(
                mac,
                s.remote_mac,
                s.local.unwrap().addr,
                s.remote.unwrap().addr,
                crate::conn::spec_data_segment(
                    s.local.unwrap().port,
                    s.remote.unwrap().port,
                    s.snd_nxt,
                    s.rcv_nxt,
                ),
                s.send_queue@[0]@,
            ),
        ]
    } else {
        Seq::<Seq<u8>>::empty()
    })
}

/// The frames one poll emits for the first `n` sockets, in socket order.
pub open spec fn emits_upto(socks: Seq<Socket>, n: int, now: u64, mac: MacAddress) -> Seq<Seq<u8>>
    decreases n,
{
    if n <= 0 {
        Seq::<Seq<u8>>::empty()
    } else {
        emits_upto(socks, n - 1, now, mac) + sock_emits(socks[n - 1], now, mac)
    }
}

pub proof fn lemma_frame_views_push(q: Seq<Vec<u8>>, v: Vec<u8>)
    ensures
        frame_views(q.push(v)) == frame_views(q) + seq![v@],
{
    assert(frame_views(q.push(v)) =~= frame_views(q) + seq![v@]);
}

impl Engine {
    /// The index of the first active connection matching the exact
    /// four-tuple, if any.
    fn find_conn_index(&self, le: Endpoint, re: Endpoint) -> (r: Option<usize>)
        ensures
            match r {
                Some(i) => conn_match(self.socks@, le, re, i as int),
                None => !has_conn(self.socks@, le, re),
            },
    {
        let n = self.socks.len();
        let mut i: usize = 0;
        while i < n
            invariant
                i <= n,
                n == self.socks@.len(),
                forall|j: int| 0 <= j < i ==> !conn_match(self.socks@, le, re, j),
            decreases n - i,
        {
            let active = !matches!(self.socks[i].state, State::Closed | State::Listen);
            if active {
                let lo = match &self.socks[i].local {
                    Some(b) => b.addr == le.addr && b.port == le.port,
                    None => false,
                };
                let ro = match &self.socks[i].remote {
                    Some(b) => b.addr == re.addr && b.port == re.port,
                    None => false,
                };
                if lo && ro {
                    return Some(i);
                }
            }
            i = i + 1;
        }
        None
    }

    /// The index of the first listener bound to `le`, if any.
    fn find_listener_index(&self, le: Endpoint) -> (r: Option<usize>)
        ensures
            match r {
                Some(i) => listener_match(self.socks@, le, i as int),
                None => !has_listener(self.socks@, le),
            },
    {
        let n = self.socks.len();
        let mut i: usize = 0;
        while i < n
            invariant
                i <= n,
                n == self.socks@.len(),
                forall|j: int| 0 <= j < i ==> !listener_match(self.socks@, le, j),
            decreases n - i,
        {
            if matches!(self.socks[i].state, State::Listen) {
                let lo = match &self.socks[i].local {
                    Some(b) => b.addr == le.addr && b.port == le.port,
                    None => false,
                };
                if lo {
                    return Some(i);
                }
            }
            i = i + 1;
        }
        None
    }

    /// A pure SYN reached a listener: spawn a new half-open connection and
    /// answer with a SYN+ACK, or drop the SYN silently at capacity.
    #[verifier::loop_isolation(false)]
    pub fn handle_listener_syn(
        &mut self,
        l: usize,
        smac: MacAddress,
        rip: Ipv4Addr,
        th: &TcpHeader,
    )
        requires
            old(self).wf(),
            l < old(self).socks@.len(),
            old(self).socks@[l as int].state == State::Listen,
            th.syn && !th.ack,
            old(self).next_fd < 0xFFFF_FFFFu32,
        ensures
            final(self).wf(),
            final(self).out_queue == old(self).out_queue,
            final(self).now == old(self).now,
            final(self).mac == old(self).mac,
            final(self).ip == old(self).ip,
            final(self).neighbors == old(self).neighbors,
            final(self).next_port == old(self).next_port,
            ({
                let s = old(self).socks@;
                let lst = s[l as int];
                let le = lst.local.unwrap();
                if lst.pending_children + lst.ready@.len() >= lst.backlog {
                    *final(self) == *old(self)
                } else {
                    let isn = 0u32;
                    let fr = spec_frame(
                        old(self).mac,
                        smac,
                        le.addr,
                        rip,
                        crate::conn::spec_syn_ack_segment(le.port, th.src_port, isn, th.seq_num),
                        Seq::<u8>::empty(),
                    );
                    let c = final(self).socks@[s.len() as int];
                    &&& final(self).socks@.len() == s.len() + 1
                    &&& (forall|j: int|
                        0 <= j < s.len() && j != l ==> final(self).socks@[j] == s[j])
                    &&& final(self).socks@[l as int] == (Socket {
                        pending_children: (lst.pending_children + 1) as usize,
                        ..lst
                    })
                    &&& c.fd == old(self).next_fd
                    &&& c.state == State::SynRcvd
                    &&& c.local == Some(le)
                    &&& c.remote == Some(Endpoint { addr: rip, port: th.src_port })
                    &&& c.isn == isn
                    &&& c.snd_nxt == wrap32(isn + 1)
                    &&& c.rcv_nxt == wrap32(th.seq_num + 1)
                    &&& c.parent == Some(lst.fd)
                    &&& c.error is None
                    &&& c.recv_queue@.len() == 0
                    &&& c.pending_tx@.len() == 1
                    &&& c.pending_tx@[0]@ == fr
                    &&& c.unacked is Some
                    &&& c.unacked.unwrap().frame@ == fr
                    &&& c.unacked.unwrap().seq_end == wrap32(isn + 1)
                    &&& final(self).next_fd == old(self).next_fd + 1
                }
            }),
    {
        let backlog = self.socks[l].backlog;
        let pending = self.socks[l].pending_children;
        let queued = self.socks[l].ready.len();
        if pending >= backlog || queued >= backlog - pending {
            return ;
        }
        let le = match &self.socks[l].local {
            Some(ep) => Endpoint { addr: ep.addr, port: ep.port },
            None => {
                return ;
            },
        };
        let lfd = self.socks[l].fd;
        let isn: u32 = 0;
        let th2 = TcpHeader {
            src_port: le.port,
            dst_port: th.src_port,
            seq_num: isn,
            ack_num: crate::seqnum::seq_add(th.seq_num, 1),
            syn: true,
            ack: true,
            fin: false,
            rst: false,
            psh: false,
            window_size: crate::conn::ADVERTISED_WINDOW,
        };
        assert(th2 == crate::conn::spec_syn_ack_segment(le.port, th.src_port, isn, th.seq_num));
        let empty: Vec<u8> = Vec::new();
        let frame = make_frame(self.mac, smac, le.addr, rip, &th2, &empty);
        let frame2 = clone_frame(&frame);
        let deadline = self.arm_deadline();
        let fd = self.next_fd;
        self.next_fd = self.next_fd + 1;
        let mut child = Socket::new(fd);
        child.state = State::SynRcvd;
        child.local = Some(le);
        child.remote = Some(Endpoint { addr: rip, port: th.src_port });
        child.remote_mac = smac;
        child.isn = isn;
        child.snd_nxt = crate::seqnum::seq_add(isn, 1);
        child.rcv_nxt = crate::seqnum::seq_add(th.seq_num, 1);
        child.parent = Some(lfd);
        child.pending_tx.push(frame);
        child.unacked = Some(
            UnackedSeg { frame: frame2, seq_end: crate::seqnum::seq_add(isn, 1), deadline, retries: 0 },
        );
        let lsock = &mut self.socks[l];
        lsock.pending_children = lsock.pending_children + 1;
        self.socks.push(child);
        proof {
            assert(forall|j: int|
                0 <= j < old(self).socks@.len() && j != l ==> self.socks@[j] == old(self).socks@[j]);
        }
    }

    /// A segment reached a connection in the middle of its active open.
    pub fn handle_syn_sent(&mut self, i: usize, smac: MacAddress, th: &TcpHeader)
        requires
            old(self).wf(),
            i < old(self).socks@.len(),
            old(self).socks@[i as int].state == State::SynSent,
        ensures
            final(self).wf(),
            final(self).out_queue == old(self).out_queue,
            final(self).now == old(self).now,
            final(self).next_fd == old(self).next_fd,
            final(self).mac == old(self).mac,
            final(self).ip == old(self).ip,
            final(self).neighbors == old(self).neighbors,
            final(self).next_port == old(self).next_port,
            final(self).socks@.len() == old(self).socks@.len(),
            (forall|j: int|
                0 <= j < old(self).socks@.len() && j != i ==> final(self).socks@[j] == old(
                    self,
                ).socks@[j]),
            ({
                let s = old(self).socks@;
                let sk = s[i as int];
                let le = sk.local.unwrap();
                let re = sk.remote.unwrap();
                let t = final(self).socks@[i as int];
                if th.syn && th.ack && th.ack_num == wrap32(sk.isn + 1) {
                    let fr = spec_frame(
                        old(self).mac,
                        smac,
                        le.addr,
                        re.addr,
                        crate::conn::spec_pure_ack_segment(
                            le.port,
                            re.port,
                            wrap32(sk.isn + 1),
                            wrap32(th.seq_num + 1),
                        ),
                        Seq::<u8>::empty(),
                    );
                    &&& t.state == State::Established
                    &&& t.snd_nxt == wrap32(sk.isn + 1)
                    &&& t.rcv_nxt == wrap32(th.seq_num + 1)
                    &&& t.unacked is None
                    &&& t.error == sk.error
                    &&& t.pending_tx@.len() == sk.pending_tx@.len() + 1
                    &&& t.pending_tx@.last()@ == fr
                    &&& t.recv_queue == sk.recv_queue
                    &&& t.fd == sk.fd
                    &&& t.local == sk.local
                    &&& t.remote == sk.remote
                } else {
                    &&& t.state == State::Closed
                    &&& t.error == Some(
                        if th.rst {
                            Fail::ConnectionRefused
                        } else {
                            Fail::ProtocolError
                        },
                    )
                    &&& t.unacked is None
                    &&& t.pending_tx == sk.pending_tx
                    &&& t.recv_queue == sk.recv_queue
                    &&& t.fd == sk.fd
                }
            }),
    {
        let isn = self.socks[i].isn;
        let expected = crate::seqnum::seq_add(isn, 1);
        if th.syn && th.ack && th.ack_num == expected {
            let le = match &self.socks[i].local {
                Some(ep) => Endpoint { addr: ep.addr, port: ep.port },
                None => {
                    return ;
                },
            };
            let re = match &self.socks[i].remote {
                Some(ep) => Endpoint { addr: ep.addr, port: ep.port },
                None => {
                    return ;
                },
            };
            let rcv = crate::seqnum::seq_add(th.seq_num, 1);
            let th2 = TcpHeader {
                src_port: le.port,
                dst_port: re.port,
                seq_num: expected,
                ack_num: rcv,
                syn: false,
                ack: true,
                fin: false,
                rst: false,
                psh: false,
                window_size: crate::conn::ADVERTISED_WINDOW,
            };
            assert(th2 == crate::conn::spec_pure_ack_segment(le.port, re.port, expected, rcv));
            let empty: Vec<u8> = Vec::new();
            let frame = make_frame(self.mac, smac, le.addr, re.addr, &th2, &empty);
            let sock = &mut self.socks[i];
            sock.state = State::Established;
            sock.snd_nxt = expected;
            sock.rcv_nxt = rcv;
            sock.remote_mac = smac;
            sock.unacked = None;
            sock.pending_tx.push(frame);
        } else {
            let sock = &mut self.socks[i];
            sock.state = State::Closed;
            sock.error = Some(
                if th.rst {
                    Fail::ConnectionRefused
                } else {
                    Fail::ProtocolError
                },
            );
            sock.unacked = None;
        }
        proof {
            lemma_ready_live_frame(old(self).socks@, self.socks@);
        }
    }

    /// A segment reached a half-open connection spawned by a listener.
    pub fn handle_syn_rcvd(&mut self, i: usize, th: &TcpHeader)
        requires
            old(self).wf(),
            i < old(self).socks@.len(),
            old(self).socks@[i as int].state == State::SynRcvd,
        ensures
            final(self).wf(),
            final(self).out_queue == old(self).out_queue,
            final(self).now == old(self).now,
            final(self).next_fd == old(self).next_fd,
            final(self).mac == old(self).mac,
            final(self).ip == old(self).ip,
            final(self).neighbors == old(self).neighbors,
            final(self).next_port == old(self).next_port,
            final(self).socks@.len() == old(self).socks@.len(),
            ({
                let s = old(self).socks@;
                let sk = s[i as int];
                let t = final(self).socks@[i as int];
                if th.ack && !th.syn && th.ack_num == wrap32(sk.isn + 1) {
                    let pfd = sk.parent.unwrap();
                    let p = fd_index(s, pfd);
                    &&& t.state == State::Established
                    &&& t.unacked is None
                    &&& t.fd == sk.fd
                    &&& t.recv_queue == sk.recv_queue
                    &&& t.rcv_nxt == sk.rcv_nxt
                    &&& t.snd_nxt == wrap32(sk.isn + 1)
                    &&& t.pending_tx == sk.pending_tx
                    &&& t.error == sk.error
                    &&& (forall|j: int|
                        0 <= j < s.len() && j != i && !(sk.parent is Some && has_fd(s, pfd)
                            && s[p].state == State::Listen && j == p) ==> final(self).socks@[j]
                            == s[j])
                    &&& (sk.parent is Some && has_fd(s, pfd) && s[p].state == State::Listen && p
                        != i ==> final(self).socks@[p].ready@ == s[p].ready@.push(sk.fd)
                        && final(self).socks@[p].pending_children == (
                    if s[p].pending_children > 0 {
                        (s[p].pending_children - 1) as usize
                    } else {
                        0
                    }) && final(self).socks@[p].state == State::Listen
                        && final(self).socks@[p].fd == s[p].fd
                        && final(self).socks@[p].local == s[p].local
                        && final(self).socks@[p].backlog == s[p].backlog)
                } else {
                    *final(self) == *old(self)
                }
            }),
    {
        let isn = self.socks[i].isn;
        let expected = crate::seqnum::seq_add(isn, 1);
        if !(th.ack && !th.syn && th.ack_num == expected) {
            return ;
        }
        let fd = self.socks[i].fd;
        let parent = match &self.socks[i].parent {
            Some(p) => Some(*p),
            None => None,
        };
        let sock = &mut self.socks[i];
        sock.state = State::Established;
        sock.snd_nxt = expected;
        sock.unacked = None;
        if let Some(pfd) = parent {
            match self.find_index(pfd) {
                Some(p) => {
                    proof {
                        lemma_fd_index_is(self.socks@, pfd, p as int);
                    }
                    if p != i && matches!(self.socks[p].state, State::Listen) {
                        let lsock = &mut self.socks[p];
                        if lsock.pending_children > 0 {
                            lsock.pending_children = lsock.pending_children - 1;
                        }
                        lsock.ready.push(fd);
                    }
                },
                None => {},
            }
        }
        proof {
            assert(old(self).socks@[i as int].fd == fd);
            assert(has_fd(old(self).socks@, fd));
            lemma_ready_live_frame(old(self).socks@, self.socks@);
        }
    }

    /// A segment reached an established connection: retire an acknowledged
    /// segment, deliver in-order data exactly once, open passive teardown on
    /// a FIN, and treat a SYN as a protocol violation.
    pub fn handle_established(&mut self, i: usize, smac: MacAddress, th: &TcpHeader, payload: Vec<u8>)
        requires
            old(self).wf(),
            i < old(self).socks@.len(),
            old(self).socks@[i as int].state == State::Established,
            payload@.len() <= 0xFFFF,
        ensures
            final(self).wf(),
            final(self).out_queue == old(self).out_queue,
            final(self).now == old(self).now,
            final(self).next_fd == old(self).next_fd,
            final(self).mac == old(self).mac,
            final(self).ip == old(self).ip,
            final(self).neighbors == old(self).neighbors,
            final(self).next_port == old(self).next_port,
            final(self).socks@.len() == old(self).socks@.len(),
            (forall|j: int|
                0 <= j < old(self).socks@.len() && j != i ==> final(self).socks@[j] == old(
                    self,
                ).socks@[j]),
            ({
                let s = old(self).socks@;
                let sk = s[i as int];
                let le = sk.local.unwrap();
                let re = sk.remote.unwrap();
                let t = final(self).socks@[i as int];
                if th.syn {
                    &&& t.state == State::Closed
                    &&& t.error == Some(Fail::ProtocolError)
                    &&& t.unacked is None
                    &&& t.recv_queue == sk.recv_queue
                    &&& t.fd == sk.fd
                    &&& t.pending_tx@.len() == sk.pending_tx@.len() + 1
                    &&& t.pending_tx@.last()@ == spec_frame(
                        old(self).mac,
                        smac,
                        le.addr,
                        re.addr,
                        crate::conn::spec_rst_segment(le.port, re.port, sk.snd_nxt),
                        Seq::<u8>::empty(),
                    )
                } else {
                    let acked = th.ack && sk.unacked is Some && th.ack_num
                        == sk.unacked.unwrap().seq_end;
                    &&& t.fd == sk.fd
                    &&& t.local == sk.local
                    &&& t.remote == sk.remote
                    &&& t.snd_nxt == sk.snd_nxt
                    &&& t.send_queue == sk.send_queue
                    &&& t.error == sk.error
                    &&& (acked ==> t.unacked is None)
                    &&& (!acked ==> t.unacked == sk.unacked)
                    &&& if payload@.len() > 0 && th.seq_num == sk.rcv_nxt {
                        &&& t.state == State::Established
                        &&& t.recv_queue@ == sk.recv_queue@.push(payload)
                        &&& t.rcv_nxt == wrap32(sk.rcv_nxt + payload@.len())
                        &&& t.pending_tx@.len() == sk.pending_tx@.len() + 1
                        &&& t.pending_tx@.last()@ == spec_frame(
                            old(self).mac,
                            smac,
                            le.addr,
                            re.addr,
                            crate::conn::spec_pure_ack_segment(
                                le.port,
                                re.port,
                                sk.snd_nxt,
                                wrap32(sk.rcv_nxt + payload@.len()),
                            ),
                            Seq::<u8>::empty(),
                        )
                    } else if payload@.len() > 0 {
                        &&& t.state == State::Established
                        &&& t.recv_queue == sk.recv_queue
                        &&& t.rcv_nxt == sk.rcv_nxt
                        &&& (crate::seqnum::spec_seq_lt(th.seq_num, sk.rcv_nxt)
                            ==> t.pending_tx@.len() == sk.pending_tx@.len() + 1
                            && t.pending_tx@.last()@ == spec_frame(
                            old(self).mac,
                            smac,
                            le.addr,
                            re.addr,
                            crate::conn::spec_pure_ack_segment(
                                le.port,
                                re.port,
                                sk.snd_nxt,
                                sk.rcv_nxt,
                            ),
                            Seq::<u8>::empty(),
                        ))
                        &&& (!crate::seqnum::spec_seq_lt(th.seq_num, sk.rcv_nxt) ==> t.pending_tx
                            == sk.pending_tx)
                    } else if th.fin && th.seq_num == sk.rcv_nxt {
                        &&& t.state == State::CloseWait
                        &&& t.recv_queue == sk.recv_queue
                        &&& t.rcv_nxt == wrap32(sk.rcv_nxt + 1)
                        &&& t.pending_tx@.len() == sk.pending_tx@.len() + 1
                        &&& t.pending_tx@.last()@ == spec_frame(
                            old(self).mac,
                            smac,
                            le.addr,
                            re.addr,
                            crate::conn::spec_pure_ack_segment(
                                le.port,
                                re.port,
                                sk.snd_nxt,
                                wrap32(sk.rcv_nxt + 1),
                            ),
                            Seq::<u8>::empty(),
                        )
                    } else {
                        &&& t.state == State::Established
                        &&& t.recv_queue == sk.recv_queue
                        &&& t.rcv_nxt == sk.rcv_nxt
                        &&& t.pending_tx == sk.pending_tx
                    }
                }
            }),
    {
        let le = match &self.socks[i].local {
            Some(ep) => Endpoint { addr: ep.addr, port: ep.port },
            None => {
                return ;
            },
        };
        let re = match &self.socks[i].remote {
            Some(ep) => Endpoint { addr: ep.addr, port: ep.port },
            None => {
                return ;
            },
        };
        let snd_nxt = self.socks[i].snd_nxt;
        let rcv_nxt = self.socks[i].rcv_nxt;
        let empty: Vec<u8> = Vec::new();
        if th.syn {
            let th2 = TcpHeader {
                src_port: le.port,
                dst_port: re.port,
                seq_num: snd_nxt,
                ack_num: 0,
                syn: false,
                ack: false,
                fin: false,
                rst: true,
                psh: false,
                window_size: crate::conn::ADVERTISED_WINDOW,
            };
            assert(th2 == crate::conn::spec_rst_segment(le.port, re.port, snd_nxt));
            let frame = make_frame(self.mac, smac, le.addr, re.addr, &th2, &empty);
            let sock = &mut self.socks[i];
            sock.state = State::Closed;
            sock.error = Some(Fail::ProtocolError);
            sock.unacked = None;
            sock.pending_tx.push(frame);
            proof {
                lemma_ready_live_frame(old(self).socks@, self.socks@);
            }
            return ;
        }
        let acked = match &self.socks[i].unacked {
            Some(u) => th.ack && th.ack_num == u.seq_end,
            None => false,
        };
        if acked {
            let sock = &mut self.socks[i];
            sock.unacked = None;
        }
        if payload.len() > 0 {
            if th.seq_num == rcv_nxt {
                let new_rcv = crate::seqnum::seq_add(rcv_nxt, payload.len() as u32);
                let th2 = TcpHeader {
                    src_port: le.port,
                    dst_port: re.port,
                    seq_num: snd_nxt,
                    ack_num: new_rcv,
                    syn: false,
                    ack: true,
                    fin: false,
                    rst: false,
                    psh: false,
                    window_size: crate::conn::ADVERTISED_WINDOW,
                };
                assert(th2 == crate::conn::spec_pure_ack_segment(le.port, re.port, snd_nxt, new_rcv));
                let frame = make_frame(self.mac, smac, le.addr, re.addr, &th2, &empty);
                let sock = &mut self.socks[i];
                sock.recv_queue.push(payload);
                sock.rcv_nxt = new_rcv;
                sock.pending_tx.push(frame);
            } else if crate::seqnum::seq_lt(th.seq_num, rcv_nxt) {
                let th2 = TcpHeader {
                    src_port: le.port,
                    dst_port: re.port,
                    seq_num: snd_nxt,
                    ack_num: rcv_nxt,
                    syn: false,
                    ack: true,
                    fin: false,
                    rst: false,
                    psh: false,
                    window_size: crate::conn::ADVERTISED_WINDOW,
                };
                assert(th2 == crate::conn::spec_pure_ack_segment(le.port, re.port, snd_nxt, rcv_nxt));
                let frame = make_frame(self.mac, smac, le.addr, re.addr, &th2, &empty);
                let sock = &mut self.socks[i];
                sock.pending_tx.push(frame);
            }
        } else if th.fin && th.seq_num == rcv_nxt {
            let new_rcv = crate::seqnum::seq_add(rcv_nxt, 1);
            let th2 = TcpHeader {
                src_port: le.port,
                dst_port: re.port,
                seq_num: snd_nxt,
                ack_num: new_rcv,
                syn: false,
                ack: true,
                fin: false,
                rst: false,
                psh: false,
                window_size: crate::conn::ADVERTISED_WINDOW,
            };
            assert(th2 == crate::conn::spec_pure_ack_segment(le.port, re.port, snd_nxt, new_rcv));
            let frame = make_frame(self.mac, smac, le.addr, re.addr, &th2, &empty);
            let sock = &mut self.socks[i];
            sock.state = State::CloseWait;
            sock.rcv_nxt = new_rcv;
            sock.pending_tx.push(frame);
        }
        proof {
            lemma_ready_live_frame(old(self).socks@, self.socks@);
        }
    }

    /// A segment reached a connection somewhere on the teardown path: an
    /// acknowledgment of our FIN retires it, a peer FIN in order is
    /// acknowledged and advances the state, and the final acknowledgment in
    /// LAST_ACK reaches CLOSED.
    pub fn handle_teardown(&mut self, i: usize, smac: MacAddress, th: &TcpHeader)
        requires
            old(self).wf(),
            i < old(self).socks@.len(),
            old(self).socks@[i as int].state == State::FinWait || old(self).socks@[i as int].state
                == State::Closing || old(self).socks@[i as int].state == State::LastAck || old(
                self,
            ).socks@[i as int].state == State::CloseWait || old(self).socks@[i as int].state
                == State::TimeWait,
        ensures
            final(self).wf(),
            final(self).out_queue == old(self).out_queue,
            final(self).now == old(self).now,
            final(self).next_fd == old(self).next_fd,
            final(self).mac == old(self).mac,
            final(self).ip == old(self).ip,
            final(self).neighbors == old(self).neighbors,
            final(self).next_port == old(self).next_port,
            final(self).socks@.len() == old(self).socks@.len(),
            (forall|j: int|
                0 <= j < old(self).socks@.len() && j != i ==> final(self).socks@[j] == old(
                    self,
                ).socks@[j]),
            ({
                let sk = old(self).socks@[i as int];
                let t = final(self).socks@[i as int];
                let le = sk.local.unwrap();
                let re = sk.remote.unwrap();
                let acked = th.ack && !th.syn && (if sk.unacked is Some {
                    th.ack_num == sk.unacked.unwrap().seq_end
                } else {
                    th.ack_num == sk.snd_nxt
                });
                let fin_ok = th.fin && !th.syn && th.seq_num == sk.rcv_nxt;
                let cleared = sk.unacked is None || acked;
                &&& t.fd == sk.fd
                &&& t.local == sk.local
                &&& t.remote == sk.remote
                &&& t.recv_queue == sk.recv_queue
                &&& t.snd_nxt == sk.snd_nxt
                &&& t.send_queue == sk.send_queue
                &&& t.error == sk.error
                &&& (sk.state == State::CloseWait || sk.state == State::TimeWait ==> t.state
                    == sk.state && t.pending_tx == sk.pending_tx && t.rcv_nxt == sk.rcv_nxt)
                &&& (sk.state == State::LastAck ==> t.pending_tx == sk.pending_tx && t.rcv_nxt
                    == sk.rcv_nxt && (th.ack && !th.syn && th.ack_num == sk.snd_nxt ==> t.state
                    == State::Closed && t.unacked is None) && (!(th.ack && !th.syn && th.ack_num
                    == sk.snd_nxt) ==> t.state == State::LastAck))
                &&& ((sk.state == State::FinWait || sk.state == State::Closing) && fin_ok
                    ==> t.rcv_nxt == wrap32(sk.rcv_nxt + 1) && t.pending_tx@.len()
                    == sk.pending_tx@.len() + 1 && t.pending_tx@.last()@ == spec_frame(
                    old(self).mac,
                    smac,
                    le.addr,
                    re.addr,
                    crate::conn::spec_pure_ack_segment(
                        le.port,
                        re.port,
                        sk.snd_nxt,
                        wrap32(sk.rcv_nxt + 1),
                    ),
                    Seq::<u8>::empty(),
                ) && t.state == (
                if cleared {
                    State::TimeWait
                } else {
                    State::Closing
                }))
                &&& (sk.state == State::FinWait && !fin_ok ==> t.state == State::FinWait
                    && t.pending_tx == sk.pending_tx && t.rcv_nxt == sk.rcv_nxt)
                &&& (sk.state == State::Closing && !fin_ok ==> t.pending_tx == sk.pending_tx
                    && t.rcv_nxt == sk.rcv_nxt && t.state == (
                if cleared {
                    State::TimeWait
                } else {
                    State::Closing
                }))
                &&& (sk.state != State::LastAck ==> (acked ==> t.unacked is None) && (!acked
                    ==> t.unacked == sk.unacked))
            }),
    {
        let st = self.socks[i].state;
        let acked = match &self.socks[i].unacked {
            Some(u) => th.ack && !th.syn && th.ack_num == u.seq_end,
            None => th.ack && !th.syn && th.ack_num == self.socks[i].snd_nxt,
        };
        if acked {
            let sock = &mut self.socks[i];
            sock.unacked = None;
        }
        match st {
            State::LastAck => {
                if th.ack && !th.syn && th.ack_num == self.socks[i].snd_nxt {
                    let sock = &mut self.socks[i];
                    sock.state = State::Closed;
                    sock.unacked = None;
                }
            },
            State::FinWait | State::Closing => {
                if th.fin && !th.syn && th.seq_num == self.socks[i].rcv_nxt {
                    let le = match &self.socks[i].local {
                        Some(ep) => Endpoint { addr: ep.addr, port: ep.port },
                        None => {
                            return ;
                        },
                    };
                    let re = match &self.socks[i].remote {
                        Some(ep) => Endpoint { addr: ep.addr, port: ep.port },
                        None => {
                            return ;
                        },
                    };
                    let snd_nxt = self.socks[i].snd_nxt;
                    let new_rcv = crate::seqnum::seq_add(self.socks[i].rcv_nxt, 1);
                    let th2 = TcpHeader {
                        src_port: le.port,
                        dst_port: re.port,
                        seq_num: snd_nxt,
                        ack_num: new_rcv,
                        syn: false,
                        ack: true,
                        fin: false,
                        rst: false,
                        psh: false,
                        window_size: crate::conn::ADVERTISED_WINDOW,
                    };
                    assert(th2 == crate::conn::spec_pure_ack_segment(
                        le.port,
                        re.port,
                        snd_nxt,
                        new_rcv,
                    ));
                    let empty: Vec<u8> = Vec::new();
                    let frame = make_frame(self.mac, smac, le.addr, re.addr, &th2, &empty);
                    let none_left = self.socks[i].unacked.is_none();
                    let sock = &mut self.socks[i];
                    sock.rcv_nxt = new_rcv;
                    sock.pending_tx.push(frame);
                    sock.state = if none_left {
                        State::TimeWait
                    } else {
                        State::Closing
                    };
                } else if matches!(st, State::Closing) && self.socks[i].unacked.is_none() {
                    let sock = &mut self.socks[i];
                    sock.state = State::TimeWait;
                }
            },
            _ => {},
        }
        proof {
            lemma_ready_live_frame(old(self).socks@, self.socks@);
        }
    }

    /// The single inbound entry point: parses a raw frame, validates every
    /// checksum, and routes the segment to the exact-tuple connection or,
    /// failing that, to a listener on the destination port. Unparseable
    /// frames are reported `Malformed` and change nothing; frames for other
    /// hosts or with no matching socket are dropped silently.
    pub fn receive(&mut self, frame: Vec<u8>) -> (r: Result<(), Fail>)
        requires
            old(self).wf(),
            old(self).next_fd < 0xFFFF_FFFFu32,
        ensures
            final(self).wf(),
            final(self).now == old(self).now,
            final(self).out_queue == old(self).out_queue,
            final(self).mac == old(self).mac,
            final(self).ip == old(self).ip,
            final(self).neighbors == old(self).neighbors,
            final(self).next_port == old(self).next_port,
            ({
                let rx = spec_rx(frame@);
                match r {
                    Ok(()) => rx is Some,
                    Err(Fail::Malformed) => rx is None && *final(self) == *old(self),
                    Err(_) => false,
                }
            }),
            ({
                let rx = spec_rx(frame@);
                rx is Some && rx.unwrap().1.dst_addr != old(self).ip ==> *final(self) == *old(self)
            }),
            ({
                let rx = spec_rx(frame@);
                rx is Some ==> ({
                    let ih = rx.unwrap().1;
                    let th = rx.unwrap().2;
                    let s = old(self).socks@;
                    let le = Endpoint { addr: ih.dst_addr, port: th.dst_port };
                    let re = Endpoint { addr: ih.src_addr, port: th.src_port };
                    ih.dst_addr == old(self).ip && !has_conn(s, le, re) && !(th.syn && !th.ack)
                        ==> *final(self) == *old(self)
                })
            }),
            ({
                let rx = spec_rx(frame@);
                rx is Some ==> ({
                    let ih = rx.unwrap().1;
                    let th = rx.unwrap().2;
                    let s = old(self).socks@;
                    let le = Endpoint { addr: ih.dst_addr, port: th.dst_port };
                    let re = Endpoint { addr: ih.src_addr, port: th.src_port };
                    ih.dst_addr == old(self).ip && !has_conn(s, le, re) && th.syn && !th.ack
                        && !has_listener(s, le) ==> *final(self) == *old(self)
                })
            }),
            ({
                let rx = spec_rx(frame@);
                rx is Some ==> ({
                    let ih = rx.unwrap().1;
                    let th = rx.unwrap().2;
                    let s = old(self).socks@;
                    let le = Endpoint { addr: ih.dst_addr, port: th.dst_port };
                    let re = Endpoint { addr: ih.src_addr, port: th.src_port };
                    ih.dst_addr == old(self).ip && !has_conn(s, le, re) && th.syn && !th.ack && (
                    forall|li: int|
                        listener_match(s, le, li) ==> s[li].pending_children + s[li].ready@.len()
                            >= s[li].backlog) ==> *final(self) == *old(self)
                })
            }),
            ({
                let rx = spec_rx(frame@);
                rx is Some ==> ({
                    let ih = rx.unwrap().1;
                    let th = rx.unwrap().2;
                    let p = rx.unwrap().3;
                    let s = old(self).socks@;
                    let le = Endpoint { addr: ih.dst_addr, port: th.dst_port };
                    let re = Endpoint { addr: ih.src_addr, port: th.src_port };
                    ih.dst_addr == old(self).ip ==> (forall|j: int|
                        conn_match(s, le, re, j) && s[j].state == State::Established && !th.syn
                            && p.len() > 0 && th.seq_num != s[j].rcv_nxt
                            ==> final(self).socks@[j].recv_queue == s[j].recv_queue)
                })
            }),
            ({
                let rx = spec_rx(frame@);
                rx is Some ==> ({
                    let eh = rx.unwrap().0;
                    let ih = rx.unwrap().1;
                    let th = rx.unwrap().2;
                    let p = rx.unwrap().3;
                    let s = old(self).socks@;
                    let le = Endpoint { addr: ih.dst_addr, port: th.dst_port };
                    let re = Endpoint { addr: ih.src_addr, port: th.src_port };
                    ih.dst_addr == old(self).ip ==> (forall|j: int|
                        #![trigger conn_match(s, le, re, j)]
                        conn_match(s, le, re, j) && (forall|j2: int|
                            conn_match(s, le, re, j2) ==> j2 == j) && s[j].state
                            == State::Established && !th.syn && p.len() > 0 && th.seq_num
                            == s[j].rcv_nxt ==> final(self).socks@[j].state == State::Established
                            && final(self).socks@[j].recv_queue@.len() == s[j].recv_queue@.len()
                            + 1 && final(self).socks@[j].recv_queue@.last()@ == p
                            && final(self).socks@[j].rcv_nxt == wrap32(s[j].rcv_nxt + p.len())
                            && final(self).socks@[j].pending_tx@.len() == s[j].pending_tx@.len()
                            + 1 && final(self).socks@[j].pending_tx@.last()@ == spec_frame(
                            old(self).mac,
                            eh.src_addr,
                            le.addr,
                            re.addr,
                            crate::conn::spec_pure_ack_segment(
                                le.port,
                                re.port,
                                s[j].snd_nxt,
                                wrap32(s[j].rcv_nxt + p.len()),
                            ),
                            Seq::<u8>::empty(),
                        ))
                })
            }),
            ({
                let rx = spec_rx(frame@);
                rx is Some ==> ({
                    let eh = rx.unwrap().0;
                    let ih = rx.unwrap().1;
                    let th = rx.unwrap().2;
                    let p = rx.unwrap().3;
                    let s = old(self).socks@;
                    let le = Endpoint { addr: ih.dst_addr, port: th.dst_port };
                    let re = Endpoint { addr: ih.src_addr, port: th.src_port };
                    ih.dst_addr == old(self).ip ==> (forall|j: int|
                        #![trigger conn_match(s, le, re, j)]
                        conn_match(s, le, re, j) && (forall|j2: int|
                            conn_match(s, le, re, j2) ==> j2 == j) && s[j].state
                            == State::Established && !th.syn && p.len() == 0 && th.fin
                            && th.seq_num == s[j].rcv_nxt ==> final(self).socks@[j].state
                            == State::CloseWait && final(self).socks@[j].recv_queue
                            == s[j].recv_queue && final(self).socks@[j].rcv_nxt == wrap32(
                            s[j].rcv_nxt + 1,
                        ) && final(self).socks@[j].pending_tx@.len() == s[j].pending_tx@.len() + 1
                            && final(self).socks@[j].pending_tx@.last()@ == spec_frame(
                            old(self).mac,
                            eh.src_addr,
                            le.addr,
                            re.addr,
                            crate::conn::spec_pure_ack_segment(
                                le.port,
                                re.port,
                                s[j].snd_nxt,
                                wrap32(s[j].rcv_nxt + 1),
                            ),
                            Seq::<u8>::empty(),
                        ))
                })
            }),
            ({
                let rx = spec_rx(frame@);
                rx is Some ==> ({
                    let eh = rx.unwrap().0;
                    let ih = rx.unwrap().1;
                    let th = rx.unwrap().2;
                    let s = old(self).socks@;
                    let le = Endpoint { addr: ih.dst_addr, port: th.dst_port };
                    let re = Endpoint { addr: ih.src_addr, port: th.src_port };
                    ih.dst_addr == old(self).ip ==> (forall|j: int|
                        #![trigger conn_match(s, le, re, j)]
                        conn_match(s, le, re, j) && (forall|j2: int|
                            conn_match(s, le, re, j2) ==> j2 == j) && s[j].state
                            == State::Established && th.syn ==> final(self).socks@[j].state
                            == State::Closed && final(self).socks@[j].error == Some(
                            Fail::ProtocolError,
                        ) && final(self).socks@[j].recv_queue == s[j].recv_queue
                            && final(self).socks@[j].pending_tx@.len() == s[j].pending_tx@.len()
                            + 1 && final(self).socks@[j].pending_tx@.last()@ == spec_frame(
                            old(self).mac,
                            eh.src_addr,
                            le.addr,
                            re.addr,
                            crate::conn::spec_rst_segment(le.port, re.port, s[j].snd_nxt),
                            Seq::<u8>::empty(),
                        ))
                })
            }),
            ({
                let rx = spec_rx(frame@);
                rx is Some ==> ({
                    let ih = rx.unwrap().1;
                    let th = rx.unwrap().2;
                    let s = old(self).socks@;
                    let le = Endpoint { addr: ih.dst_addr, port: th.dst_port };
                    let re = Endpoint { addr: ih.src_addr, port: th.src_port };
                    let eh = rx.unwrap().0;
                    ih.dst_addr == old(self).ip ==> (forall|j: int|
                        #![trigger conn_match(s, le, re, j)]
                        conn_match(s, le, re, j) && (forall|j2: int|
                            conn_match(s, le, re, j2) ==> j2 == j) && s[j].state == State::SynSent
                            && th.syn && th.ack && th.ack_num == wrap32(s[j].isn + 1)
                            ==> final(self).socks@[j].state == State::Established
                            && final(self).socks@[j].pending_tx@.len() == s[j].pending_tx@.len()
                            + 1 && final(self).socks@[j].pending_tx@.last()@ == spec_frame(
                            old(self).mac,
                            eh.src_addr,
                            le.addr,
                            re.addr,
                            crate::conn::spec_pure_ack_segment(
                                le.port,
                                re.port,
                                wrap32(s[j].isn + 1),
                                wrap32(th.seq_num + 1),
                            ),
                            Seq::<u8>::empty(),
                        ))
                })
            }),
            ({
                let rx = spec_rx(frame@);
                rx is Some ==> ({
                    let ih = rx.unwrap().1;
                    let th = rx.unwrap().2;
                    let s = old(self).socks@;
                    let le = Endpoint { addr: ih.dst_addr, port: th.dst_port };
                    let re = Endpoint { addr: ih.src_addr, port: th.src_port };
                    ih.dst_addr == old(self).ip ==> (forall|j: int|
                        #![trigger conn_match(s, le, re, j)]
                        conn_match(s, le, re, j) && (forall|j2: int|
                            conn_match(s, le, re, j2) ==> j2 == j) && s[j].state == State::SynRcvd
                            && th.ack && !th.syn && th.ack_num == wrap32(s[j].isn + 1)
                            ==> final(self).socks@[j].state == State::Established)
                })
            }),
            ({
                let rx = spec_rx(frame@);
                rx is Some ==> ({
                    let ih = rx.unwrap().1;
                    let th = rx.unwrap().2;
                    let s = old(self).socks@;
                    let le = Endpoint { addr: ih.dst_addr, port: th.dst_port };
                    let re = Endpoint { addr: ih.src_addr, port: th.src_port };
                    ih.dst_addr == old(self).ip && !has_conn(s, le, re) && th.syn && !th.ack ==> (
                    forall|li: int|
                        #![trigger listener_match(s, le, li)]
                        listener_match(s, le, li) && (forall|li2: int|
                            listener_match(s, le, li2) ==> li2 == li) && s[li].pending_children
                            + s[li].ready@.len() < s[li].backlog ==> final(self).socks@.len()
                            == s.len() + 1 && final(self).socks@[s.len() as int].state
                            == State::SynRcvd && final(self).socks@[s.len() as int].rcv_nxt
                            == wrap32(th.seq_num + 1) && final(self).socks@[
                            s.len() as int
                        ].pending_tx@.len() == 1 && final(self).socks@[
                            s.len() as int
                        ].pending_tx@[0]@ == spec_frame(
                            old(self).mac,
                            rx.unwrap().0.src_addr,
                            le.addr,
                            ih.src_addr,
                            crate::conn::spec_syn_ack_segment(le.port, th.src_port, 0, th.seq_num),
                            Seq::<u8>::empty(),
                        ))
                })
            }),
    {
        let (eh, ip_bytes) = match Ethernet2Header::parse(&frame) {
            Ok(x) => x,
            Err(e) => {
                return Err(e);
            },
        };
        let (ih, tcp_bytes) = match Ipv4Header::parse(&ip_bytes) {
            Ok(x) => x,
            Err(e) => {
                return Err(e);
            },
        };
        let (th, payload) = match TcpHeader::parse(&ih, &tcp_bytes, true) {
            Ok(x) => x,
            Err(e) => {
                return Err(e);
            },
        };
        if !(ih.dst_addr == self.ip) {
            return Ok(());
        }
        let le = Endpoint { addr: ih.dst_addr, port: th.dst_port };
        let re = Endpoint { addr: ih.src_addr, port: th.src_port };
        let smac = eh.src_addr;
        match self.find_conn_index(le, re) {
            Some(i) => {
                let st = self.socks[i].state;
                match st {
                    State::SynSent => self.handle_syn_sent(i, smac, &th),
                    State::SynRcvd => self.handle_syn_rcvd(i, &th),
                    State::Established => self.handle_established(i, smac, &th, payload),
                    State::FinWait | State::Closing | State::LastAck | State::CloseWait
                        | State::TimeWait => self.handle_teardown(i, smac, &th),
                    _ => {},
                }
                proof {
                    let s = old(self).socks@;
                    let p = spec_rx(frame@).unwrap().3;
                    assert forall|j: int|
                        conn_match(s, le, re, j) && s[j].state == State::Established && !th.syn
                            && p.len() > 0 && th.seq_num != s[j].rcv_nxt implies (
                    self.socks@[j].recv_queue == s[j].recv_queue) by {
                        if j != i {
                            assert(self.socks@[j] == s[j]);
                        }
                    }
                }
            },
            None => {
                if th.syn && !th.ack {
                    match self.find_listener_index(le) {
                        Some(l) => {
                            self.handle_listener_syn(l, smac, ih.src_addr, &th);
                        },
                        None => {},
                    }
                }
            },
        }
        Ok(())
    }

    /// One scheduler poll: hands every generated frame to the outbound
    /// queue in generation order, fires due retransmission timers (failing
    /// an operation with `ConnectionTimedOut` once its retry budget is
    /// spent), and puts at most one queued payload per connection on the
    /// wire.
    #[verifier::loop_isolation(false)]
    pub fn poll_scheduler(&mut self)
        requires
            old(self).wf(),
        ensures
            final(self).wf(),
            final(self).now == old(self).now,
            final(self).next_fd == old(self).next_fd,
            final(self).next_port == old(self).next_port,
            final(self).mac == old(self).mac,
            final(self).ip == old(self).ip,
            final(self).neighbors == old(self).neighbors,
            final(self).socks@.len() == old(self).socks@.len(),
            final(self).out_queue@.len() >= old(self).out_queue@.len(),
            (forall|k: int|
                0 <= k < old(self).out_queue@.len() ==> final(self).out_queue@[k] == old(
                    self,
                ).out_queue@[k]),
            (forall|j: int|
                0 <= j < old(self).socks@.len() ==> poll_step_rel(
                    old(self).socks@[j],
                    final(self).socks@[j],
                    old(self).now,
                    old(self).mac,
                )),
            frame_views(final(self).out_queue@) == frame_views(old(self).out_queue@) + emits_upto(
                old(self).socks@,
                old(self).socks@.len() as int,
                old(self).now,
                old(self).mac,
            ),
    {
        let n = self.socks.len();
        let mut i: usize = 0;
        proof {
            assert(frame_views(self.out_queue@) =~= frame_views(old(self).out_queue@)
                + emits_upto(old(self).socks@, 0, old(self).now, old(self).mac));
        }
        while i < n
            invariant
                i <= n,
                n == self.socks@.len(),
                self.wf(),
                self.now == old(self).now,
                self.mac == old(self).mac,
                self.ip == old(self).ip,
                self.next_fd == old(self).next_fd,
                self.next_port == old(self).next_port,
                self.neighbors == old(self).neighbors,
                self.socks@.len() == old(self).socks@.len(),
                self.out_queue@.len() >= old(self).out_queue@.len(),
                (forall|k: int|
                    0 <= k < old(self).out_queue@.len() ==> self.out_queue@[k] == old(
                        self,
                    ).out_queue@[k]),
                frame_views(self.out_queue@) == frame_views(old(self).out_queue@) + emits_upto(
                    old(self).socks@,
                    i as int,
                    old(self).now,
                    old(self).mac,
                ),
                (forall|j: int|
                    0 <= j < i ==> poll_step_rel(
                        old(self).socks@[j],
                        self.socks@[j],
                        old(self).now,
                        old(self).mac,
                    )),
                (forall|j: int| i <= j < n ==> self.socks@[j] == old(self).socks@[j]),
            decreases n - i,
        {
            let ghost s_i = old(self).socks@[i as int];
            let ghost out_iter = self.out_queue@;
            // hand generated frames to the outbound queue, oldest first
            let m = self.socks[i].pending_tx.len();
            let ghost base = self.out_queue@.len();
            let mut k: usize = 0;
            while k < m
                invariant
                    k <= m,
                    i < n,
                    n == self.socks@.len(),
                    m == self.socks@[i as int].pending_tx@.len(),
                    self.wf(),
                    self.now == old(self).now,
                    self.mac == old(self).mac,
                    self.ip == old(self).ip,
                    self.next_fd == old(self).next_fd,
                    self.next_port == old(self).next_port,
                    self.neighbors == old(self).neighbors,
                    self.socks@.len() == old(self).socks@.len(),
                    self.out_queue@.len() == base + k,
                    base == out_iter.len(),
                    self.out_queue@.take(base as int) == out_iter,
                    base >= old(self).out_queue@.len(),
                    (forall|q: int|
                        0 <= q < old(self).out_queue@.len() ==> self.out_queue@[q] == old(
                            self,
                        ).out_queue@[q]),
                    (forall|q: int|
                        0 <= q < k ==> self.out_queue@[base + q]@ == self.socks@[
                            i as int
                        ].pending_tx@[q]@),
                    (forall|j: int|
                        0 <= j < i ==> poll_step_rel(
                            old(self).socks@[j],
                            self.socks@[j],
                            old(self).now,
                            old(self).mac,
                        )),
                    (forall|j: int| i <= j < n ==> self.socks@[j] == old(self).socks@[j]),
                decreases m - k,
            {
                let f = clone_frame(&self.socks[i].pending_tx[k]);
                self.out_queue.push(f);
                k = k + 1;
            }
            let sock = &mut self.socks[i];
            sock.pending_tx.clear();
            proof {
                assert(frame_views(self.out_queue@) =~= frame_views(out_iter) + frame_views(
                    s_i.pending_tx@,
                ));
            }
            let ghost out_drained = self.out_queue@;
            // fire a due retransmission timer
            let mut fire = false;
            let mut timeout = false;
            if let Some(u) = &self.socks[i].unacked {
                if u.deadline <= self.now {
                    if u.retries >= RETRY_LIMIT {
                        timeout = true;
                    } else {
                        fire = true;
                    }
                }
            }
            if timeout {
                let sock = &mut self.socks[i];
                sock.state = State::Closed;
                sock.error = Some(Fail::ConnectionTimedOut);
                sock.unacked = None;
            }
            if fire {
                let deadline = self.arm_deadline();
                let f = match &self.socks[i].unacked {
                    Some(u) => clone_frame(&u.frame),
                    None => Vec::new(),
                };
                proof {
                    lemma_frame_views_push(self.out_queue@, f);
                }
                self.out_queue.push(f);
                let sock = &mut self.socks[i];
                if let Some(u) = &mut sock.unacked {
                    u.retries = u.retries + 1;
                    u.deadline = deadline;
                }
            }
            proof {
                let retr = if s_i.unacked is Some && s_i.unacked.unwrap().deadline <= old(
                    self,
                ).now && s_i.unacked.unwrap().retries < RETRY_LIMIT {
                    seq![s_i.unacked.unwrap().frame@]
                } else {
                    Seq::<Seq<u8>>::empty()
                };
                assert(frame_views(self.out_queue@) =~= frame_views(out_drained) + retr);
            }
            let ghost out_timer = self.out_queue@;
            // put one queued payload on the wire
            let can_send = matches!(self.socks[i].state, State::Established)
                && self.socks[i].unacked.is_none() && self.socks[i].send_queue.len() > 0;
            if can_send {
                let le = match &self.socks[i].local {
                    Some(ep) => Endpoint { addr: ep.addr, port: ep.port },
                    None => {
                        return ;
                    },
                };
                let re = match &self.socks[i].remote {
                    Some(ep) => Endpoint { addr: ep.addr, port: ep.port },
                    None => {
                        return ;
                    },
                };
                let payload = self.socks[i].send_queue.remove(0);
                let snd_nxt = self.socks[i].snd_nxt;
                let rcv_nxt = self.socks[i].rcv_nxt;
                let rmac = self.socks[i].remote_mac;
                let th = TcpHeader {
                    src_port: le.port,
                    dst_port: re.port,
                    seq_num: snd_nxt,
                    ack_num: rcv_nxt,
                    syn: false,
                    ack: true,
                    fin: false,
                    rst: false,
                    psh: true,
                    window_size: crate::conn::ADVERTISED_WINDOW,
                };
                assert(th == crate::conn::spec_data_segment(le.port, re.port, snd_nxt, rcv_nxt));
                let frame = make_frame(self.mac, rmac, le.addr, re.addr, &th, &payload);
                let f2 = clone_frame(&frame);
                proof {
                    lemma_frame_views_push(self.out_queue@, frame);
                }
                self.out_queue.push(frame);
                let new_snd = crate::seqnum::seq_add(snd_nxt, payload.len() as u32);
                let deadline = self.arm_deadline();
                let sock = &mut self.socks[i];
                sock.snd_nxt = new_snd;
                sock.unacked = Some(
                    UnackedSeg { frame: f2, seq_end: new_snd, deadline, retries: 0 },
                );
            }
            proof {
                let now0 = old(self).now;
                let mac0 = old(self).mac;
                let data = if s_i.unacked is None && s_i.state == State::Established
                    && s_i.send_queue@.len() > 0 {
                    seq![
                        spec_frame(
                            mac0,
                            s_i.remote_mac,
                            s_i.local.unwrap().addr,
                            s_i.remote.unwrap().addr,
                            crate::conn::spec_data_segment(
                                s_i.local.unwrap().port,
                                s_i.remote.unwrap().port,
                                s_i.snd_nxt,
                                s_i.rcv_nxt,
                            ),
                            s_i.send_queue@[0]@,
                        ),
                    ]
                } else {
                    Seq::<Seq<u8>>::empty()
                };
                assert(frame_views(self.out_queue@) =~= frame_views(out_timer) + data);
                assert(frame_views(self.out_queue@) =~= frame_views(old(self).out_queue@)
                    + emits_upto(old(self).socks@, i as int + 1, now0, mac0));
                lemma_ready_live_frame(old(self).socks@, self.socks@);
            }
            i = i + 1;
        }
    }
}

/// A pending active open, identified by its descriptor. `started` records
/// whether the descriptor was fresh when connect was called; when it was
/// not, the operation is immediately ready with `InvalidState`.
pub struct ConnectFuture {
    pub fd: FileDescriptor,
    pub started: bool,
}

impl ConnectFuture {
    /// Reads the operation's status off the engine: ready once the
    /// connection is established or has terminally failed.
    pub fn poll(&self, e: &Engine) -> (r: Poll<Result<(), Fail>>)
        requires
            e.wf(),
        ensures
            ({
                let s = e.socks@;
                let i = fd_index(s, self.fd);
                if !self.started {
                    r == Poll::Ready(Result::<(), Fail>::Err(Fail::InvalidState))
                } else if !has_fd(s, self.fd) {
                    r == Poll::Ready(Result::<(), Fail>::Err(Fail::ConnectionClosed))
                } else if s[i].error is Some {
                    r == Poll::Ready(Result::<(), Fail>::Err(s[i].error.unwrap()))
                } else if s[i].state == State::Established {
                    r == Poll::Ready(Result::<(), Fail>::Ok(()))
                } else if s[i].state == State::SynSent {
                    r == Poll::<Result<(), Fail>>::Pending
                } else {
                    r == Poll::Ready(Result::<(), Fail>::Err(Fail::InvalidState))
                }
            }),
    {
        if !self.started {
            return Poll::Ready(Err(Fail::InvalidState));
        }
        let i = match e.find_index(self.fd) {
            Some(i) => i,
            None => {
                return Poll::Ready(Err(Fail::ConnectionClosed));
            },
        };
        proof {
            lemma_fd_index_is(e.socks@, self.fd, i as int);
        }
        if let Some(f) = &e.socks[i].error {
            return Poll::Ready(Err(*f));
        }
        match e.socks[i].state {
            State::Established => Poll::Ready(Ok(())),
            State::SynSent => Poll::Pending,
            _ => Poll::Ready(Err(Fail::InvalidState)),
        }
    }
}

/// A pending accept, identified by the listener's descriptor.
pub struct AcceptFuture {
    pub fd: FileDescriptor,
}

impl AcceptFuture {
    /// Takes the oldest completed connection off the listener, if any.
    pub fn poll(&self, e: &mut Engine) -> (r: Poll<Result<FileDescriptor, Fail>>)
        requires
            old(e).wf(),
        ensures
            final(e).wf(),
            final(e).out_queue == old(e).out_queue,
            final(e).socks@.len() == old(e).socks@.len(),
            ({
                let s = old(e).socks@;
                let i = fd_index(s, self.fd);
                if !has_fd(s, self.fd) {
                    r == Poll::Ready(Result::<FileDescriptor, Fail>::Err(Fail::InvalidState))
                        && *final(e) == *old(e)
                } else if s[i].error is Some {
                    r == Poll::Ready(Result::<FileDescriptor, Fail>::Err(s[i].error.unwrap()))
                        && *final(e) == *old(e)
                } else if s[i].state != State::Listen {
                    r == Poll::Ready(Result::<FileDescriptor, Fail>::Err(Fail::InvalidState))
                        && *final(e) == *old(e)
                } else if s[i].ready@.len() > 0 {
                    r == Poll::Ready(Result::<FileDescriptor, Fail>::Ok(s[i].ready@[0]))
                        && has_fd(s, s[i].ready@[0]) && has_fd(final(e).socks@, s[i].ready@[0])
                        && final(e).socks@[i].ready@ == s[i].ready@.skip(1) && (forall|j: int|
                        0 <= j < s.len() && j != i ==> final(e).socks@[j] == s[j])
                        && final(e).socks@[i].state == State::Listen
                        && final(e).socks@[i].pending_children == s[i].pending_children
                        && final(e).socks@[i].local == s[i].local
                } else {
                    r == Poll::<Result<FileDescriptor, Fail>>::Pending && *final(e) == *old(e)
                }
            }),
    {
        let i = match e.find_index(self.fd) {
            Some(i) => i,
            None => {
                return Poll::Ready(Err(Fail::InvalidState));
            },
        };
        proof {
            lemma_fd_index_is(e.socks@, self.fd, i as int);
        }
        if let Some(f) = &e.socks[i].error {
            return Poll::Ready(Err(*f));
        }
        if !matches!(e.socks[i].state, State::Listen) {
            return Poll::Ready(Err(Fail::InvalidState));
        }
        if e.socks[i].ready.len() > 0 {
            let sock = &mut e.socks[i];
            let child = sock.ready.remove(0);
            assert(sock.ready@ =~= old(e).socks@[i as int].ready@.skip(1));
            proof {
                lemma_ready_live_frame(old(e).socks@, e.socks@);
                assert(has_fd(old(e).socks@, old(e).socks@[i as int].ready@[0]));
                let w = choose|w: int|
                    0 <= w < old(e).socks@.len() && old(e).socks@[w].fd == old(e).socks@[
                        i as int
                    ].ready@[0];
                assert(e.socks@[w].fd == old(e).socks@[i as int].ready@[0]);
                assert(has_fd(e.socks@, old(e).socks@[i as int].ready@[0]));
            }
            return Poll::Ready(Ok(child));
        }
        Poll::Pending
    }
}

/// A pending push; it completes as soon as the payload is accepted into the
/// connection's send queue, so it is ready at once unless the connection has
/// already failed.
pub struct PushFuture {
    pub fd: FileDescriptor,
}

impl PushFuture {
    pub fn poll(&self, e: &Engine) -> (r: Poll<Result<(), Fail>>)
        requires
            e.wf(),
        ensures
            ({
                let s = e.socks@;
                let i = fd_index(s, self.fd);
                if !has_fd(s, self.fd) {
                    r == Poll::Ready(Result::<(), Fail>::Err(Fail::ConnectionClosed))
                } else if s[i].error is Some {
                    r == Poll::Ready(Result::<(), Fail>::Err(s[i].error.unwrap()))
                } else {
                    r == Poll::Ready(Result::<(), Fail>::Ok(()))
                }
            }),
    {
        let i = match e.find_index(self.fd) {
            Some(i) => i,
            None => {
                return Poll::Ready(Err(Fail::ConnectionClosed));
            },
        };
        proof {
            lemma_fd_index_is(e.socks@, self.fd, i as int);
        }
        if let Some(f) = &e.socks[i].error {
            return Poll::Ready(Err(*f));
        }
        Poll::Ready(Ok(()))
    }
}

/// A pending pop, identified by the connection's descriptor. Data already
/// delivered in order is still handed out in CLOSE_WAIT, after the peer's
/// FIN, so a passive close does not lose bytes the peer sent first.
pub struct PopFuture {
    pub fd: FileDescriptor,
}

impl PopFuture {
    /// Takes the oldest in-order payload off the connection, if any.
    pub fn poll(&self, e: &mut Engine) -> (r: Poll<Result<Vec<u8>, Fail>>)
        requires
            old(e).wf(),
        ensures
            final(e).wf(),
            final(e).out_queue == old(e).out_queue,
            final(e).socks@.len() == old(e).socks@.len(),
            ({
                let s = old(e).socks@;
                let i = fd_index(s, self.fd);
                if !has_fd(s, self.fd) {
                    r == Poll::Ready(Result::<Vec<u8>, Fail>::Err(Fail::ConnectionClosed))
                        && *final(e) == *old(e)
                } else if s[i].recv_queue@.len() > 0 && (s[i].state == State::Established
                    || s[i].state == State::CloseWait) {
                    r == Poll::Ready(Result::<Vec<u8>, Fail>::Ok(s[i].recv_queue@[0]))
                        && final(e).socks@[i].recv_queue@ == s[i].recv_queue@.skip(1) && (forall|
                        j: int,
                    |
                        0 <= j < s.len() && j != i ==> final(e).socks@[j] == s[j])
                        && final(e).socks@[i].state == s[i].state
                        && final(e).socks@[i].rcv_nxt == s[i].rcv_nxt
                } else if s[i].error is Some {
                    r == Poll::Ready(Result::<Vec<u8>, Fail>::Err(s[i].error.unwrap()))
                        && *final(e) == *old(e)
                } else if s[i].state != State::Established && s[i].state != State::CloseWait {
                    r == Poll::Ready(Result::<Vec<u8>, Fail>::Err(Fail::NotConnected)) && *final(e)
                        == *old(e)
                } else {
                    r == Poll::<Result<Vec<u8>, Fail>>::Pending && *final(e) == *old(e)
                }
            }),
    {
        let i = match e.find_index(self.fd) {
            Some(i) => i,
            None => {
                return Poll::Ready(Err(Fail::ConnectionClosed));
            },
        };
        proof {
            lemma_fd_index_is(e.socks@, self.fd, i as int);
        }
        let connected = matches!(e.socks[i].state, State::Established | State::CloseWait);
        if connected && e.socks[i].recv_queue.len() > 0 {
            let sock = &mut e.socks[i];
            let buf = sock.recv_queue.remove(0);
            assert(sock.recv_queue@ =~= old(e).socks@[i as int].recv_queue@.skip(1));
            proof {
                lemma_ready_live_frame(old(e).socks@, e.socks@);
            }
            return Poll::Ready(Ok(buf));
        }
        if let Some(f) = &e.socks[i].error {
            return Poll::Ready(Err(*f));
        }
        if !connected {
            return Poll::Ready(Err(Fail::NotConnected));
        }
        Poll::Pending
    }
}

/// Builds the raw frame for one segment: TCP inside IPv4 inside Ethernet.
fn make_frame(
    src_mac: MacAddress,
    dst_mac: MacAddress,
    src_ip: Ipv4Addr,
    dst_ip: Ipv4Addr,
    th: &TcpHeader,
    payload: &Vec<u8>,
) -> (f: Vec<u8>)
    requires
        payload@.len() <= MAX_SEGMENT_PAYLOAD,
    ensures
        f@ == spec_frame(src_mac, dst_mac, src_ip, dst_ip, *th, payload@),
{
    let ih = Ipv4Header { src_addr: src_ip, dst_addr: dst_ip, protocol: Ipv4Protocol2::Tcp };
    let tcp_bytes = th.serialize(&ih, payload);
    let ip_bytes = ih.serialize(&tcp_bytes);
    let eh = Ethernet2Header { dst_addr: dst_mac, src_addr: src_mac, ether_type: EtherType2::Ipv4 };
    eh.serialize(&ip_bytes)
}

/// Copies a frame byte for byte, for retransmission.
fn clone_frame(f: &Vec<u8>) -> (r: Vec<u8>)
    ensures
        r@ == f@,
{
    let mut r: Vec<u8> = Vec::new();
    crate::wire::push_all(&mut r, f);
    assert(r@ =~= f@);
    r
}

/// Descriptors queued for accept stay live across a table change that keeps
/// every existing record's descriptor in place.
pub proof fn lemma_ready_live_frame(s: Seq<Socket>, s2: Seq<Socket>)
    requires
        s.len() <= s2.len(),
        forall|i: int| 0 <= i < s.len() ==> #[trigger] s2[i].fd == s[i].fd,
        forall|i: int, k: int|
            0 <= i < s2.len() && 0 <= k < s2[i].ready@.len() ==> has_fd(
                s,
                #[trigger] s2[i].ready@[k],
            ),
    ensures
        forall|i: int, k: int|
            0 <= i < s2.len() && 0 <= k < s2[i].ready@.len() ==> has_fd(
                s2,
                #[trigger] s2[i].ready@[k],
            ),
{
    assert forall|i: int, k: int|
        0 <= i < s2.len() && 0 <= k < s2[i].ready@.len() implies has_fd(
        s2,
        #[trigger] s2[i].ready@[k],
    ) by {
        let fd = s2[i].ready@[k];
        assert(has_fd(s, fd));
        let w = choose|w: int| 0 <= w < s.len() && s[w].fd == fd;
        assert(s2[w].fd == fd);
    }
}

/// With unique descriptors, any index holding `fd` is the index `fd_index`
/// denotes.
pub proof fn lemma_fd_index_is(s: Seq<Socket>, fd: u32, i: int)
    requires
        forall|a: int, b: int| 0 <= a < b < s.len() ==> s[a].fd != s[b].fd,
        0 <= i < s.len(),
        s[i].fd == fd,
    ensures
        has_fd(s, fd),
        fd_index(s, fd) == i,
{
    assert(has_fd(s, fd));
    let w = choose|k: int| 0 <= k < s.len() && s[k].fd == fd;
    if w < i {
        assert(s[w].fd != s[i].fd);
    } else if w > i {
        assert(s[i].fd != s[w].fd);
    }
}

} // verus!
