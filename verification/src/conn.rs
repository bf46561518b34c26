use vstd::prelude::*;
use crate::addr::{Endpoint, MacAddress};
use crate::fail::Fail;
use crate::segment::TcpHeader;
use crate::seqnum::wrap32;

verus! {

/// The states of one TCP connection. The handshake runs through the first
/// five; the rest form the teardown path.
#[derive(Clone, Copy, Debug, PartialEq, Eq, Structural)]
pub enum State {
    Closed,
    Listen,
    SynSent,
    SynRcvd,
    Established,
    FinWait,
    CloseWait,
    Closing,
    LastAck,
    TimeWait,
}

/// The receive window advertised on every segment this stack emits.
pub const ADVERTISED_WINDOW: u16 = 0xFFFF;

/// The pure SYN that opens an active connection: sequence number is the
/// connection's ISN, SYN set, ACK (and every other flag) clear.
pub open spec fn spec_syn_segment(local_port: u16, remote_port: u16, isn: u32) -> TcpHeader {
    TcpHeader {
        src_port: local_port,
        dst_port: remote_port,
        seq_num: isn,
        ack_num: 0,
        syn: true,
        ack: false,
        fin: false,
        rst: false,
        psh: false,
        window_size: ADVERTISED_WINDOW,
    }
}

/// The SYN+ACK a listener answers with: sequence number is the server's ISN,
/// acknowledgment is the client's sequence number plus one.
pub open spec fn spec_syn_ack_segment(
    local_port: u16,
    remote_port: u16,
    server_isn: u32,
    client_seq: u32,
) -> TcpHeader {
    TcpHeader {
        src_port: local_port,
        dst_port: remote_port,
        seq_num: server_isn,
        ack_num: wrap32(client_seq + 1),
        syn: true,
        ack: true,
        fin: false,
        rst: false,
        psh: false,
        window_size: ADVERTISED_WINDOW,
    }
}

/// A segment carrying only an acknowledgment (no SYN, no data flags).
pub open spec fn spec_pure_ack_segment(
    local_port: u16,
    remote_port: u16,
    seq: u32,
    ack: u32,
) -> TcpHeader {
    TcpHeader {
        src_port: local_port,
        dst_port: remote_port,
        seq_num: seq,
        ack_num: ack,
        syn: false,
        ack: true,
        fin: false,
        rst: false,
        psh: false,
        window_size: ADVERTISED_WINDOW,
    }
}

/// The header of a data segment: PSH and ACK set.
pub open spec fn spec_data_segment(local_port: u16, remote_port: u16, seq: u32, ack: u32)
    -> TcpHeader {
    TcpHeader {
        src_port: local_port,
        dst_port: remote_port,
        seq_num: seq,
        ack_num: ack,
        syn: false,
        ack: true,
        fin: false,
        rst: false,
        psh: true,
        window_size: ADVERTISED_WINDOW,
    }
}

/// The header of a FIN segment that opens local teardown.
pub open spec fn spec_fin_segment(local_port: u16, remote_port: u16, seq: u32, ack: u32)
    -> TcpHeader {
    TcpHeader {
        src_port: local_port,
        dst_port: remote_port,
        seq_num: seq,
        ack_num: ack,
        syn: false,
        ack: true,
        fin: true,
        rst: false,
        psh: false,
        window_size: ADVERTISED_WINDOW,
    }
}

/// The reset answering a protocol violation.
pub open spec fn spec_rst_segment(local_port: u16, remote_port: u16, seq: u32) -> TcpHeader {
    TcpHeader {
        src_port: local_port,
        dst_port: remote_port,
        seq_num: seq,
        ack_num: 0,
        syn: false,
        ack: false,
        fin: false,
        rst: true,
        psh: false,
        window_size: ADVERTISED_WINDOW,
    }
}

/// A SYN sent while opening actively carries the connection's fixed ISN as
/// its sequence number, with SYN set and ACK clear.
pub proof fn lemma_syn_carries_isn(local_port: u16, remote_port: u16, isn: u32)
    ensures
        spec_syn_segment(local_port, remote_port, isn).seq_num == isn,
        spec_syn_segment(local_port, remote_port, isn).syn,
        !spec_syn_segment(local_port, remote_port, isn).ack,
{
}

/// A SYN+ACK acknowledges the client's sequence number plus one, carries the
/// server's ISN, and has both SYN and ACK set.
pub proof fn lemma_syn_ack_numbers(local_port: u16, remote_port: u16, server_isn: u32,
    client_seq: u32)
    ensures
        spec_syn_ack_segment(local_port, remote_port, server_isn, client_seq).ack_num == wrap32(
            client_seq + 1,
        ),
        spec_syn_ack_segment(local_port, remote_port, server_isn, client_seq).seq_num
            == server_isn,
        spec_syn_ack_segment(local_port, remote_port, server_isn, client_seq).syn,
        spec_syn_ack_segment(local_port, remote_port, server_isn, client_seq).ack,
{
}

/// The pure ACK completing the active open carries ISN + 1 as its sequence
/// number, the peer's sequence number + 1 as its acknowledgment, ACK set and
/// SYN clear.
pub proof fn lemma_handshake_ack_numbers(local_port: u16, remote_port: u16, isn: u32,
    peer_seq: u32)
    ensures
        spec_pure_ack_segment(local_port, remote_port, wrap32(isn + 1), wrap32(peer_seq + 1))
            .seq_num == wrap32(isn + 1),
        spec_pure_ack_segment(local_port, remote_port, wrap32(isn + 1), wrap32(peer_seq + 1))
            .ack_num == wrap32(peer_seq + 1),
        spec_pure_ack_segment(local_port, remote_port, wrap32(isn + 1), wrap32(peer_seq + 1)).ack,
        !spec_pure_ack_segment(local_port, remote_port, wrap32(isn + 1), wrap32(peer_seq + 1)).syn,
{
}

/// A segment held for retransmission until the peer acknowledges it.
pub struct UnackedSeg {
    /// The raw frame to put back on the wire on each retry.
    pub frame: Vec<u8>,
    /// The acknowledgment number that retires this segment.
    pub seq_end: u32,
    /// Virtual time at which the next retransmission is due.
    pub deadline: u64,
    /// Retransmissions already performed.
    pub retries: u32,
}

/// One socket record: a connection, a listener, or a still-unbound
/// descriptor, owned by the engine's table.
pub struct Socket {
    pub fd: u32,
    pub state: State,
    pub local: Option<Endpoint>,
    pub remote: Option<Endpoint>,
    /// MAC the peer's frames come stamped with; broadcast until learned.
    pub remote_mac: MacAddress,
    /// Initial sequence number, fixed for the connection's lifetime.
    pub isn: u32,
    /// Next sequence number to send.
    pub snd_nxt: u32,
    /// Next sequence number expected from the peer.
    pub rcv_nxt: u32,
    /// Listener only: admission limit for children not yet accepted.
    pub backlog: usize,
    /// Listener only: children still mid-handshake.
    pub pending_children: usize,
    /// Listener only: established children awaiting accept, oldest first.
    pub ready: Vec<u32>,
    /// Child only: the listener that spawned this connection.
    pub parent: Option<u32>,
    /// Payloads delivered in order and not yet popped.
    pub recv_queue: Vec<Vec<u8>>,
    /// Payloads pushed and not yet put on the wire.
    pub send_queue: Vec<Vec<u8>>,
    /// Frames generated but not yet handed to the outbound queue.
    pub pending_tx: Vec<Vec<u8>>,
    /// The one segment awaiting acknowledgment, if any.
    pub unacked: Option<UnackedSeg>,
    /// Terminal failure to hand to whoever polls this socket's operations.
    pub error: Option<Fail>,
}

impl Socket {
    /// A fresh, unbound, unconnected record.
    pub fn new(fd: u32) -> (s: Socket)
        ensures
            s.fd == fd,
            s.state == State::Closed,
            s.local is None,
            s.remote is None,
            s.error is None,
            s.recv_queue@.len() == 0,
            s.send_queue@.len() == 0,
            s.pending_tx@.len() == 0,
            s.ready@.len() == 0,
            s.pending_children == 0,
            s.unacked is None,
    {
        Socket {
            fd,
            state: State::Closed,
            local: None,
            remote: None,
            remote_mac: MacAddress { b0: 0xff, b1: 0xff, b2: 0xff, b3: 0xff, b4: 0xff, b5: 0xff },
            isn: 0,
            snd_nxt: 0,
            rcv_nxt: 0,
            backlog: 0,
            pending_children: 0,
            ready: Vec::new(),
            parent: None,
            recv_queue: Vec::new(),
            send_queue: Vec::new(),
            pending_tx: Vec::new(),
            unacked: None,
            error: None,
        }
    }
}

} // verus!
