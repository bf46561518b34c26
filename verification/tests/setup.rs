use ustack::addr::{Endpoint, Ipv4Addr, MacAddress};
use ustack::conn::State;
use ustack::engine::{AcceptFuture, ConnectFuture, Engine, FileDescriptor, Poll};
use ustack::ethernet2::{EtherType2, Ethernet2Header};
use ustack::ipv4::Ipv4Header;
use ustack::segment::TcpHeader;

fn alice_mac() -> MacAddress {
    MacAddress::new(0x12, 0x23, 0x45, 0x67, 0x89, 0xab)
}

fn bob_mac() -> MacAddress {
    MacAddress::new(0xab, 0x89, 0x67, 0x45, 0x23, 0x12)
}

fn alice_ipv4() -> Ipv4Addr {
    Ipv4Addr::new(192, 168, 1, 1)
}

fn bob_ipv4() -> Ipv4Addr {
    Ipv4Addr::new(192, 168, 1, 2)
}

pub fn new_alice(now: u64) -> Engine {
    let mut e = Engine::new(alice_mac(), alice_ipv4(), now);
    e.add_neighbor(bob_ipv4(), bob_mac());
    e
}

pub fn new_bob(now: u64) -> Engine {
    let mut e = Engine::new(bob_mac(), bob_ipv4(), now);
    e.add_neighbor(alice_ipv4(), alice_mac());
    e
}

/// Triggers CLOSED -> SYN_SENT and returns the emitted SYN frame.
fn connection_setup_listen_syn_sent(
    client: &mut Engine,
    listen_addr: Endpoint,
) -> (FileDescriptor, ConnectFuture, Vec<u8>) {
    let client_fd: FileDescriptor = client.tcp_socket();
    let connect_future: ConnectFuture = client.tcp_connect(client_fd, listen_addr);
    client.poll_scheduler();
    let bytes: Vec<u8> = client.pop_frame();
    (client_fd, connect_future, bytes)
}

/// Triggers CLOSED -> LISTEN.
fn connection_setup_closed_listen(server: &mut Engine, listen_addr: Endpoint) -> AcceptFuture {
    let socket_fd: u32 = server.tcp_socket();
    server.tcp_bind(socket_fd, listen_addr).unwrap();
    server.tcp_listen(socket_fd, 1).unwrap();
    let accept_future: AcceptFuture = server.tcp_accept(socket_fd);
    server.poll_scheduler();
    accept_future
}

/// Triggers LISTEN -> SYN_RCVD and returns the emitted SYN+ACK frame.
fn connection_setup_listen_syn_rcvd(server: &mut Engine, bytes: Vec<u8>) -> Vec<u8> {
    server.receive(bytes).unwrap();
    server.poll_scheduler();
    server.pop_frame()
}

/// Triggers SYN_SENT -> ESTABLISHED and returns the emitted pure ACK frame.
fn connection_setup_syn_sent_established(client: &mut Engine, bytes: Vec<u8>) -> Vec<u8> {
    client.receive(bytes).unwrap();
    client.poll_scheduler();
    client.pop_frame()
}

/// Triggers SYN_RCVD -> ESTABLISHED.
fn connection_setup_sync_rcvd_established(server: &mut Engine, bytes: Vec<u8>) {
    server.receive(bytes).unwrap();
    server.poll_scheduler();
}

/// Checks for a pure SYN packet: sent on the CLOSED -> SYN_SENT transition.
fn check_packet_pure_syn(
    bytes: Vec<u8>,
    eth2_src_addr: MacAddress,
    eth2_dst_addr: MacAddress,
    ipv4_src_addr: Ipv4Addr,
    ipv4_dst_addr: Ipv4Addr,
    dst_port: u16,
) {
    let (eth2_header, eth2_payload) = Ethernet2Header::parse(&bytes).unwrap();
    assert_eq!(eth2_header.src_addr, eth2_src_addr);
    assert_eq!(eth2_header.dst_addr, eth2_dst_addr);
    assert_eq!(eth2_header.ether_type, EtherType2::Ipv4);
    let (ipv4_header, ipv4_payload) = Ipv4Header::parse(&eth2_payload).unwrap();
    assert_eq!(ipv4_header.src_addr, ipv4_src_addr);
    assert_eq!(ipv4_header.dst_addr, ipv4_dst_addr);
    let (tcp_header, _) = TcpHeader::parse(&ipv4_header, &ipv4_payload, false).unwrap();
    assert_eq!(tcp_header.dst_port, dst_port);
    assert_eq!(tcp_header.seq_num, 0);
    assert_eq!(tcp_header.syn, true);
    assert_eq!(tcp_header.ack, false);
}

/// Checks for a SYN+ACK packet: sent on the LISTEN -> SYN_RCVD transition.
fn check_packet_syn_ack(
    bytes: Vec<u8>,
    eth2_src_addr: MacAddress,
    eth2_dst_addr: MacAddress,
    ipv4_src_addr: Ipv4Addr,
    ipv4_dst_addr: Ipv4Addr,
    src_port: u16,
) {
    let (eth2_header, eth2_payload) = Ethernet2Header::parse(&bytes).unwrap();
    assert_eq!(eth2_header.src_addr, eth2_src_addr);
    assert_eq!(eth2_header.dst_addr, eth2_dst_addr);
    assert_eq!(eth2_header.ether_type, EtherType2::Ipv4);
    let (ipv4_header, ipv4_payload) = Ipv4Header::parse(&eth2_payload).unwrap();
    assert_eq!(ipv4_header.src_addr, ipv4_src_addr);
    assert_eq!(ipv4_header.dst_addr, ipv4_dst_addr);
    let (tcp_header, _) = TcpHeader::parse(&ipv4_header, &ipv4_payload, false).unwrap();
    assert_eq!(tcp_header.src_port, src_port);
    assert_eq!(tcp_header.ack_num, 1);
    assert_eq!(tcp_header.seq_num, 0);
    assert_eq!(tcp_header.syn, true);
    assert_eq!(tcp_header.ack, true);
}

/// Checks for the pure ACK on a SYN+ACK: sent on SYN_SENT -> ESTABLISHED.
fn check_packet_pure_ack_on_syn_ack(
    bytes: Vec<u8>,
    eth2_src_addr: MacAddress,
    eth2_dst_addr: MacAddress,
    ipv4_src_addr: Ipv4Addr,
    ipv4_dst_addr: Ipv4Addr,
    dst_port: u16,
) {
    let (eth2_header, eth2_payload) = Ethernet2Header::parse(&bytes).unwrap();
    assert_eq!(eth2_header.src_addr, eth2_src_addr);
    assert_eq!(eth2_header.dst_addr, eth2_dst_addr);
    assert_eq!(eth2_header.ether_type, EtherType2::Ipv4);
    let (ipv4_header, ipv4_payload) = Ipv4Header::parse(&eth2_payload).unwrap();
    assert_eq!(ipv4_header.src_addr, ipv4_src_addr);
    assert_eq!(ipv4_header.dst_addr, ipv4_dst_addr);
    let (tcp_header, _) = TcpHeader::parse(&ipv4_header, &ipv4_payload, false).unwrap();
    assert_eq!(tcp_header.dst_port, dst_port);
    assert_eq!(tcp_header.seq_num, 1);
    assert_eq!(tcp_header.ack_num, 1);
    assert_eq!(tcp_header.ack, true);
    assert_eq!(tcp_header.syn, false);
}

/// Advances both virtual clocks by one tick.
pub fn advance_clock(server: Option<&mut Engine>, client: Option<&mut Engine>, now: &mut u64) {
    *now += 1;
    if let Some(server) = server {
        server.advance_clock(*now);
    }
    if let Some(client) = client {
        client.advance_clock(*now);
    }
}

/// Runs the 3-way connection setup between two engines.
pub fn connection_setup(
    now: &mut u64,
    server: &mut Engine,
    client: &mut Engine,
    listen_port: u16,
    listen_addr: Endpoint,
) -> (FileDescriptor, FileDescriptor) {
    // Server: LISTEN state at T(0).
    let accept_future: AcceptFuture = connection_setup_closed_listen(server, listen_addr);

    // T(0) -> T(1)
    advance_clock(Some(server), Some(client), now);

    // Client: SYN_SENT state at T(1).
    let (client_fd, connect_future, mut bytes): (FileDescriptor, ConnectFuture, Vec<u8>) =
        connection_setup_listen_syn_sent(client, listen_addr);

    check_packet_pure_syn(
        bytes.clone(),
        alice_mac(),
        bob_mac(),
        alice_ipv4(),
        bob_ipv4(),
        listen_port,
    );

    // T(1) -> T(2)
    advance_clock(Some(server), Some(client), now);

    // Server: SYN_RCVD state at T(2).
    bytes = connection_setup_listen_syn_rcvd(server, bytes);

    check_packet_syn_ack(
        bytes.clone(),
        bob_mac(),
        alice_mac(),
        bob_ipv4(),
        alice_ipv4(),
        listen_port,
    );

    // T(2) -> T(3)
    advance_clock(Some(server), Some(client), now);

    // Client: ESTABLISHED at T(3).
    bytes = connection_setup_syn_sent_established(client, bytes);

    check_packet_pure_ack_on_syn_ack(
        bytes.clone(),
        alice_mac(),
        bob_mac(),
        alice_ipv4(),
        bob_ipv4(),
        listen_port,
    );

    // T(3) -> T(4)
    advance_clock(Some(server), Some(client), now);

    // Server: ESTABLISHED at T(4).
    connection_setup_sync_rcvd_established(server, bytes);

    let server_fd = match accept_future.poll(server) {
        Poll::Ready(Ok(fd)) => fd,
        _ => panic!("accept did not resolve"),
    };
    match connect_future.poll(client) {
        Poll::Ready(Ok(())) => {},
        _ => panic!("connect did not resolve"),
    }

    (server_fd, client_fd)
}

/// Tests basic 3-way connection setup.
#[test]
fn test_good_connect() {
    let mut now: u64 = 0;

    let listen_port: u16 = 80;
    let listen_addr: Endpoint = Endpoint::new(bob_ipv4(), listen_port);

    let mut server = new_bob(now);
    let mut client = new_alice(now);

    let (_, _): (FileDescriptor, FileDescriptor) =
        connection_setup(&mut now, &mut server, &mut client, listen_port, listen_addr);
}

/// The full scenario: connect to a listener on port 80 at virtual time zero,
/// the handshake completes within the first clock ticks, both operations
/// resolve, and both descriptors end up established.
#[test]
fn test_handshake_end_to_end_established() {
    let mut now: u64 = 0;
    let listen_port: u16 = 80;
    let listen_addr: Endpoint = Endpoint::new(bob_ipv4(), listen_port);
    let mut server = new_bob(now);
    let mut client = new_alice(now);

    let (server_fd, client_fd) =
        connection_setup(&mut now, &mut server, &mut client, listen_port, listen_addr);

    assert_eq!(server.state_of(server_fd), Some(State::Established));
    assert_eq!(client.state_of(client_fd), Some(State::Established));
    assert!(now <= 4);
}
