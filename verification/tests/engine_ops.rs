use ustack::addr::{Endpoint, Ipv4Addr, MacAddress};
use ustack::conn::State;
use ustack::engine::{Engine, Poll};
use ustack::fail::Fail;
use ustack::ethernet2::{EtherType2, Ethernet2Header};
use ustack::ipv4::{Ipv4Header, Ipv4Protocol2};
use ustack::segment::TcpHeader;

fn ops_alice_mac() -> MacAddress {
    MacAddress::new(0x12, 0x23, 0x45, 0x67, 0x89, 0xab)
}

fn ops_bob_mac() -> MacAddress {
    MacAddress::new(0xab, 0x89, 0x67, 0x45, 0x23, 0x12)
}

fn ops_alice_ip() -> Ipv4Addr {
    Ipv4Addr::new(192, 168, 1, 1)
}

fn ops_bob_ip() -> Ipv4Addr {
    Ipv4Addr::new(192, 168, 1, 2)
}

fn ops_new_alice(now: u64) -> Engine {
    let mut e = Engine::new(ops_alice_mac(), ops_alice_ip(), now);
    e.add_neighbor(ops_bob_ip(), ops_bob_mac());
    e
}

fn ops_new_bob(now: u64) -> Engine {
    let mut e = Engine::new(ops_bob_mac(), ops_bob_ip(), now);
    e.add_neighbor(ops_alice_ip(), ops_alice_mac());
    e
}

/// Builds one raw frame from alice to bob carrying the given TCP header and
/// payload.
fn frame_to_bob(th: &TcpHeader, payload: &Vec<u8>) -> Vec<u8> {
    let ih = Ipv4Header {
        src_addr: ops_alice_ip(),
        dst_addr: ops_bob_ip(),
        protocol: Ipv4Protocol2::Tcp,
    };
    let tcp_bytes = th.serialize(&ih, payload);
    let ip_bytes = ih.serialize(&tcp_bytes);
    let eh = Ethernet2Header {
        dst_addr: ops_bob_mac(),
        src_addr: ops_alice_mac(),
        ether_type: EtherType2::Ipv4,
    };
    eh.serialize(&ip_bytes)
}

/// Runs a full handshake; returns (server, client, server_fd, client_fd).
fn established_pair() -> (Engine, Engine, u32, u32) {
    let mut now: u64 = 0;
    let listen_addr = Endpoint::new(ops_bob_ip(), 80);
    let mut server = ops_new_bob(now);
    let mut client = ops_new_alice(now);

    let lfd = server.tcp_socket();
    server.tcp_bind(lfd, listen_addr).unwrap();
    server.tcp_listen(lfd, 1).unwrap();
    let accept_future = server.tcp_accept(lfd);

    let cfd = client.tcp_socket();
    let connect_future = client.tcp_connect(cfd, listen_addr);

    now += 1;
    server.advance_clock(now);
    client.advance_clock(now);

    client.poll_scheduler();
    let syn = client.pop_frame();
    server.receive(syn).unwrap();
    server.poll_scheduler();
    let syn_ack = server.pop_frame();
    client.receive(syn_ack).unwrap();
    client.poll_scheduler();
    let ack = client.pop_frame();
    server.receive(ack).unwrap();
    server.poll_scheduler();

    let sfd = match accept_future.poll(&mut server) {
        Poll::Ready(Ok(fd)) => fd,
        _ => panic!("accept did not resolve"),
    };
    match connect_future.poll(&client) {
        Poll::Ready(Ok(())) => {},
        _ => panic!("connect did not resolve"),
    }
    (server, client, sfd, cfd)
}

/// Delivering the same already-acknowledged data segment twice produces only
/// one delivery to pop.
#[test]
fn test_duplicate_segment_delivered_once() {
    let (mut server, mut client, sfd, cfd) = established_pair();

    let payload: Vec<u8> = vec![b'h', b'e', b'l', b'l', b'o'];
    client.tcp_push(cfd, payload.clone()).unwrap();
    client.poll_scheduler();
    let data_frame = client.pop_frame();

    server.receive(data_frame.clone()).unwrap();
    let pop1 = server.tcp_pop(sfd);
    match pop1.poll(&mut server) {
        Poll::Ready(Ok(buf)) => assert_eq!(buf, payload),
        _ => panic!("first delivery missing"),
    }

    // the duplicate is acknowledged again but never delivered again
    server.receive(data_frame).unwrap();
    let pop2 = server.tcp_pop(sfd);
    match pop2.poll(&mut server) {
        Poll::Pending => {},
        _ => panic!("duplicate segment must not be delivered"),
    }
}

/// A listener with backlog 1 that receives two simultaneous SYNs admits
/// exactly one half-open child and drops the second SYN without a response.
#[test]
fn test_backlog_enforcement_drops_excess_syn() {
    let listen_addr = Endpoint::new(ops_bob_ip(), 80);
    let mut server = ops_new_bob(0);
    let lfd = server.tcp_socket();
    server.tcp_bind(lfd, listen_addr).unwrap();
    server.tcp_listen(lfd, 1).unwrap();

    let syn = |src_port: u16| -> Vec<u8> {
        let th = TcpHeader {
            src_port,
            dst_port: 80,
            seq_num: 0,
            ack_num: 0,
            syn: true,
            ack: false,
            fin: false,
            rst: false,
            psh: false,
            window_size: 0xFFFF,
        };
        frame_to_bob(&th, &Vec::new())
    };

    server.receive(syn(1000)).unwrap();
    server.receive(syn(1001)).unwrap();
    server.poll_scheduler();

    // exactly one SYN+ACK went out, answering the first SYN
    assert_eq!(server.frame_count(), 1);
    let bytes = server.pop_frame();
    let (_, ip_bytes) = Ethernet2Header::parse(&bytes).unwrap();
    let (ih, tcp_bytes) = Ipv4Header::parse(&ip_bytes).unwrap();
    let (th, _) = TcpHeader::parse(&ih, &tcp_bytes, true).unwrap();
    assert_eq!(th.dst_port, 1000);
    assert!(th.syn && th.ack);
    assert_eq!(th.ack_num, 1);
    assert_eq!(th.seq_num, 0);
}

/// A connect against an address where nothing listens retransmits until the
/// retry budget is spent and then resolves with ConnectionTimedOut.
#[test]
fn test_connect_timeout_after_retries() {
    let mut client = ops_new_alice(0);
    let cfd = client.tcp_socket();
    let connect_future = client.tcp_connect(cfd, Endpoint::new(ops_bob_ip(), 80));
    client.poll_scheduler();
    assert_eq!(client.frame_count(), 1);
    let _ = client.pop_frame();

    let mut now: u64 = 0;
    loop {
        match connect_future.poll(&client) {
            Poll::Pending => {},
            Poll::Ready(Err(Fail::ConnectionTimedOut)) => break,
            _ => panic!("connect must only time out"),
        }
        now += 5;
        assert!(now <= 100, "retry budget never expired");
        client.advance_clock(now);
        client.poll_scheduler();
    }
    assert_eq!(client.state_of(cfd), Some(State::Closed));
}

#[test]
fn test_bind_address_in_use() {
    let mut e = ops_new_bob(0);
    let a = e.tcp_socket();
    let b = e.tcp_socket();
    let addr = Endpoint::new(ops_bob_ip(), 80);
    assert_eq!(e.tcp_bind(a, addr), Ok(()));
    assert_eq!(e.tcp_bind(b, addr), Err(Fail::AddressInUse));
}

#[test]
fn test_listen_unbound_invalid_state() {
    let mut e = ops_new_bob(0);
    let a = e.tcp_socket();
    assert_eq!(e.tcp_listen(a, 1), Err(Fail::InvalidState));
    assert_eq!(e.tcp_listen(999, 1), Err(Fail::InvalidState));
}

#[test]
fn test_push_not_connected() {
    let mut e = ops_new_alice(0);
    let a = e.tcp_socket();
    match e.tcp_push(a, vec![1, 2, 3]) {
        Err(Fail::NotConnected) => {},
        _ => panic!("push on a fresh socket must fail"),
    }
}

#[test]
fn test_accept_on_non_listener_invalid_state() {
    let mut e = ops_new_bob(0);
    let a = e.tcp_socket();
    let fut = e.tcp_accept(a);
    match fut.poll(&mut e) {
        Poll::Ready(Err(Fail::InvalidState)) => {},
        _ => panic!("accept on a non-listener must fail"),
    }
}

/// An RST answering the SYN fails the pending connect with
/// ConnectionRefused.
#[test]
fn test_connect_refused_on_rst() {
    let mut client = ops_new_bob(0);
    client.add_neighbor(ops_alice_ip(), ops_alice_mac());
    let cfd = client.tcp_socket();
    let connect_future = client.tcp_connect(cfd, Endpoint::new(ops_alice_ip(), 80));
    client.poll_scheduler();
    let _ = client.pop_frame();

    // the peer resets: alice answers bob's ephemeral port with an RST
    let th = TcpHeader {
        src_port: 80,
        dst_port: 32768,
        seq_num: 0,
        ack_num: 0,
        syn: false,
        ack: false,
        fin: false,
        rst: true,
        psh: false,
        window_size: 0,
    };
    let ih = Ipv4Header {
        src_addr: ops_alice_ip(),
        dst_addr: ops_bob_ip(),
        protocol: Ipv4Protocol2::Tcp,
    };
    let tcp_bytes = th.serialize(&ih, &Vec::new());
    let ip_bytes = ih.serialize(&tcp_bytes);
    let eh = Ethernet2Header {
        dst_addr: ops_bob_mac(),
        src_addr: ops_alice_mac(),
        ether_type: EtherType2::Ipv4,
    };
    client.receive(eh.serialize(&ip_bytes)).unwrap();

    match connect_future.poll(&client) {
        Poll::Ready(Err(Fail::ConnectionRefused)) => {},
        _ => panic!("connect must resolve refused"),
    }
}

/// A SYN+ACK with the wrong acknowledgment number fails the pending connect
/// with ProtocolError.
#[test]
fn test_connect_protocol_error_on_bad_ack() {
    let mut client = ops_new_bob(0);
    let cfd = client.tcp_socket();
    let connect_future = client.tcp_connect(cfd, Endpoint::new(ops_alice_ip(), 80));
    client.poll_scheduler();
    let _ = client.pop_frame();

    let th = TcpHeader {
        src_port: 80,
        dst_port: 32768,
        seq_num: 0,
        ack_num: 7,
        syn: true,
        ack: true,
        fin: false,
        rst: false,
        psh: false,
        window_size: 0xFFFF,
    };
    let ih = Ipv4Header {
        src_addr: ops_alice_ip(),
        dst_addr: ops_bob_ip(),
        protocol: Ipv4Protocol2::Tcp,
    };
    let tcp_bytes = th.serialize(&ih, &Vec::new());
    let ip_bytes = ih.serialize(&tcp_bytes);
    let eh = Ethernet2Header {
        dst_addr: ops_bob_mac(),
        src_addr: ops_alice_mac(),
        ether_type: EtherType2::Ipv4,
    };
    client.receive(eh.serialize(&ip_bytes)).unwrap();

    match connect_future.poll(&client) {
        Poll::Ready(Err(Fail::ProtocolError)) => {},
        _ => panic!("connect must resolve with a protocol error"),
    }
}

/// A SYN arriving on an established connection is a protocol violation: the
/// connection resets and pending operations resolve with ProtocolError.
#[test]
fn test_syn_in_established_resets() {
    let (mut server, _client, sfd, _cfd) = established_pair();

    // the peer restarts and sends a fresh SYN on the same tuple
    let th = TcpHeader {
        src_port: 32768,
        dst_port: 80,
        seq_num: 99,
        ack_num: 0,
        syn: true,
        ack: false,
        fin: false,
        rst: false,
        psh: false,
        window_size: 0xFFFF,
    };
    server.receive(frame_to_bob(&th, &Vec::new())).unwrap();

    assert_eq!(server.state_of(sfd), Some(State::Closed));
    let pop = server.tcp_pop(sfd);
    match pop.poll(&mut server) {
        Poll::Ready(Err(Fail::ProtocolError)) => {},
        _ => panic!("pop must surface the protocol error"),
    }
    // the violation is answered with an RST
    server.poll_scheduler();
    assert!(server.frame_count() >= 1);
    let bytes = server.pop_frame();
    let (_, ip_bytes) = Ethernet2Header::parse(&bytes).unwrap();
    let (ih, tcp_bytes) = Ipv4Header::parse(&ip_bytes).unwrap();
    let (th2, _) = TcpHeader::parse(&ih, &tcp_bytes, true).unwrap();
    assert!(th2.rst);
}

/// Closing a listener resolves a pending accept with ConnectionClosed.
#[test]
fn test_close_listener_cancels_accept() {
    let mut server = ops_new_bob(0);
    let lfd = server.tcp_socket();
    server.tcp_bind(lfd, Endpoint::new(ops_bob_ip(), 80)).unwrap();
    server.tcp_listen(lfd, 1).unwrap();
    let accept_future = server.tcp_accept(lfd);
    server.tcp_close(lfd).unwrap();
    match accept_future.poll(&mut server) {
        Poll::Ready(Err(Fail::ConnectionClosed)) => {},
        _ => panic!("accept must be cancelled by close"),
    }
}

/// Unparseable frames are reported Malformed and change nothing.
#[test]
fn test_receive_malformed_frame() {
    let mut e = ops_new_bob(0);
    assert_eq!(e.receive(vec![1, 2, 3]), Err(Fail::Malformed));
    // a corrupted but well-framed segment fails its checksum
    let th = TcpHeader {
        src_port: 1,
        dst_port: 2,
        seq_num: 0,
        ack_num: 0,
        syn: true,
        ack: false,
        fin: false,
        rst: false,
        psh: false,
        window_size: 0,
    };
    let mut frame = frame_to_bob(&th, &vec![1, 2, 3, 4]);
    let last = frame.len() - 1;
    frame[last] ^= 0xff;
    assert_eq!(e.receive(frame), Err(Fail::Malformed));
}

/// An unacknowledged SYN+ACK is retransmitted once its timer fires.
#[test]
fn test_syn_ack_retransmitted() {
    let listen_addr = Endpoint::new(ops_bob_ip(), 80);
    let mut server = ops_new_bob(0);
    let lfd = server.tcp_socket();
    server.tcp_bind(lfd, listen_addr).unwrap();
    server.tcp_listen(lfd, 1).unwrap();

    let th = TcpHeader {
        src_port: 1000,
        dst_port: 80,
        seq_num: 0,
        ack_num: 0,
        syn: true,
        ack: false,
        fin: false,
        rst: false,
        psh: false,
        window_size: 0xFFFF,
    };
    server.receive(frame_to_bob(&th, &Vec::new())).unwrap();
    server.poll_scheduler();
    let first = server.pop_frame();
    assert_eq!(server.frame_count(), 0);

    // the handshake ACK never arrives; the timer fires
    server.advance_clock(5);
    server.poll_scheduler();
    assert_eq!(server.frame_count(), 1);
    let second = server.pop_frame();
    assert_eq!(first, second);
}

/// A complete teardown: FIN exchange in both directions ends with the
/// passive closer in CLOSED and the active closer in TIME_WAIT.
#[test]
fn test_full_teardown() {
    let (mut server, mut client, sfd, cfd) = established_pair();

    client.tcp_close(cfd).unwrap();
    client.poll_scheduler();
    let fin = client.pop_frame();
    server.receive(fin).unwrap();
    assert_eq!(server.state_of(sfd), Some(State::CloseWait));
    server.poll_scheduler();
    let ack_of_fin = server.pop_frame();
    client.receive(ack_of_fin).unwrap();

    server.tcp_close(sfd).unwrap();
    server.poll_scheduler();
    let fin2 = server.pop_frame();
    client.receive(fin2).unwrap();
    assert_eq!(client.state_of(cfd), Some(State::TimeWait));
    client.poll_scheduler();
    let ack2 = client.pop_frame();
    server.receive(ack2).unwrap();
    assert_eq!(server.state_of(sfd), Some(State::Closed));
}

/// Data pushed on one side arrives, in order, at the other.
#[test]
fn test_push_pop_one_round() {
    let (mut server, mut client, sfd, cfd) = established_pair();
    let payload: Vec<u8> = (0u16..2048u16).map(|x| (x % 256) as u8).collect();
    client.tcp_push(cfd, payload.clone()).unwrap();
    let push_future = client.tcp_push(cfd, vec![0xEE]).unwrap();
    match push_future.poll(&client) {
        Poll::Ready(Ok(())) => {},
        _ => panic!("push must be accepted"),
    }
    client.poll_scheduler();
    let f1 = client.pop_frame();
    server.receive(f1).unwrap();
    // the first segment is acknowledged; the ack lets the second one out
    server.poll_scheduler();
    let ack1 = server.pop_frame();
    client.receive(ack1).unwrap();
    client.poll_scheduler();
    let f2 = client.pop_frame();
    server.receive(f2).unwrap();

    let pop1 = server.tcp_pop(sfd);
    match pop1.poll(&mut server) {
        Poll::Ready(Ok(buf)) => assert_eq!(buf, payload),
        _ => panic!("first payload missing"),
    }
    let pop2 = server.tcp_pop(sfd);
    match pop2.poll(&mut server) {
        Poll::Ready(Ok(buf)) => assert_eq!(buf, vec![0xEE]),
        _ => panic!("second payload missing"),
    }
}
