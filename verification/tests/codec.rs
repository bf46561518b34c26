use ustack::addr::{Ipv4Addr, MacAddress};
use ustack::checksum::internet_sum;
use ustack::ethernet2::{EtherType2, Ethernet2Header};
use ustack::fail::Fail;
use ustack::ipv4::{Ipv4Header, Ipv4Protocol2};
use ustack::segment::TcpHeader;
use ustack::seqnum::{seq_add, seq_lt};

fn sample_tcp_header() -> TcpHeader {
    TcpHeader {
        src_port: 32768,
        dst_port: 80,
        seq_num: 0xDEAD_BEEF,
        ack_num: 0x0102_0304,
        syn: true,
        ack: true,
        fin: false,
        rst: false,
        psh: true,
        window_size: 0xFFFF,
    }
}

fn sample_ipv4_header() -> Ipv4Header {
    Ipv4Header {
        src_addr: Ipv4Addr::new(10, 0, 0, 1),
        dst_addr: Ipv4Addr::new(10, 0, 0, 2),
        protocol: Ipv4Protocol2::Tcp,
    }
}

/// The worked example of the standard one's-complement checksum: the words
/// 0001 f203 f4f5 f6f7 fold to ddf2.
#[test]
fn test_internet_sum_known_value() {
    let data: Vec<u8> = vec![0x00, 0x01, 0xf2, 0x03, 0xf4, 0xf5, 0xf6, 0xf7];
    assert_eq!(internet_sum(&data), 0xddf2);
}

#[test]
fn test_internet_sum_empty_and_odd() {
    let empty: Vec<u8> = Vec::new();
    assert_eq!(internet_sum(&empty), 0);
    let odd: Vec<u8> = vec![0xab];
    assert_eq!(internet_sum(&odd), 0xab00);
}

#[test]
fn test_eth_round_trip() {
    let h = Ethernet2Header {
        dst_addr: MacAddress::new(1, 2, 3, 4, 5, 6),
        src_addr: MacAddress::new(6, 5, 4, 3, 2, 1),
        ether_type: EtherType2::Ipv4,
    };
    let payload: Vec<u8> = vec![9, 8, 7];
    let bytes = h.serialize(&payload);
    assert_eq!(bytes.len(), 17);
    let (h2, p2) = Ethernet2Header::parse(&bytes).unwrap();
    assert_eq!(h2, h);
    assert_eq!(p2, payload);
}

#[test]
fn test_eth_parse_rejects_short_and_foreign() {
    let short: Vec<u8> = vec![0; 13];
    assert_eq!(Ethernet2Header::parse(&short), Err(Fail::Malformed));
    let mut arp: Vec<u8> = vec![0; 20];
    arp[12] = 0x08;
    arp[13] = 0x06;
    assert_eq!(Ethernet2Header::parse(&arp), Err(Fail::Malformed));
}

#[test]
fn test_ipv4_round_trip() {
    let h = sample_ipv4_header();
    let payload: Vec<u8> = vec![1, 2, 3, 4, 5];
    let bytes = h.serialize(&payload);
    assert_eq!(bytes.len(), 25);
    let (h2, p2) = Ipv4Header::parse(&bytes).unwrap();
    assert_eq!(h2, h);
    assert_eq!(p2, payload);
}

#[test]
fn test_ipv4_parse_rejects_corruption() {
    let h = sample_ipv4_header();
    let payload: Vec<u8> = vec![1, 2, 3, 4, 5];
    let mut bytes = h.serialize(&payload);
    // corrupt one header byte: the checksum no longer validates
    bytes[12] ^= 0xff;
    assert_eq!(Ipv4Header::parse(&bytes), Err(Fail::Malformed));

    let good = h.serialize(&payload);
    let mut truncated = good.clone();
    truncated.truncate(19);
    assert_eq!(Ipv4Header::parse(&truncated), Err(Fail::Malformed));

    let mut wrong_version = good.clone();
    wrong_version[0] = 0x46;
    assert_eq!(Ipv4Header::parse(&wrong_version), Err(Fail::Malformed));
}

#[test]
fn test_tcp_round_trip_with_checksum() {
    let ih = sample_ipv4_header();
    let th = sample_tcp_header();
    let payload: Vec<u8> = vec![0x61, 0x62, 0x63, 0x64, 0x65];
    let bytes = th.serialize(&ih, &payload);
    assert_eq!(bytes.len(), 25);
    let (th2, p2) = TcpHeader::parse(&ih, &bytes, true).unwrap();
    assert_eq!(th2, th);
    assert_eq!(p2, payload);
}

#[test]
fn test_tcp_round_trip_empty_payload() {
    let ih = sample_ipv4_header();
    let th = sample_tcp_header();
    let payload: Vec<u8> = Vec::new();
    let bytes = th.serialize(&ih, &payload);
    let (th2, p2) = TcpHeader::parse(&ih, &bytes, true).unwrap();
    assert_eq!(th2, th);
    assert_eq!(p2.len(), 0);
}

#[test]
fn test_tcp_parse_rejects_bad_checksum() {
    let ih = sample_ipv4_header();
    let th = sample_tcp_header();
    let payload: Vec<u8> = vec![1, 2, 3];
    let mut bytes = th.serialize(&ih, &payload);
    let last = bytes.len() - 1;
    bytes[last] ^= 0x01;
    assert_eq!(TcpHeader::parse(&ih, &bytes, true), Err(Fail::Malformed));
    // without validation the corrupted payload is still structurally fine
    assert!(TcpHeader::parse(&ih, &bytes, false).is_ok());
}

#[test]
fn test_tcp_parse_rejects_short_segment() {
    let ih = sample_ipv4_header();
    let short: Vec<u8> = vec![0; 19];
    assert_eq!(TcpHeader::parse(&ih, &short, false), Err(Fail::Malformed));
}

#[test]
fn test_seqnum_wraparound() {
    assert_eq!(seq_add(0xFFFF_FFFF, 1), 0);
    assert_eq!(seq_add(0xFFFF_FFFE, 3), 1);
    assert!(seq_lt(0xFFFF_FFF0, 5));
    assert!(!seq_lt(5, 0xFFFF_FFF0));
    assert!(!seq_lt(7, 7));
    assert!(seq_lt(1, 2));
}
