use vstd::prelude::*;
use crate::addr::Ipv4Addr;
use crate::checksum::{spec_checksum, valid_sum, compute_checksum, internet_sum,
    lemma_inserted_checksum_validates};
use crate::fail::Fail;
use crate::ipv4::Ipv4Header;
use crate::wire::{be16, be32, word16, word32, push_be16, push_be32, push_all, copy_range,
    read_be16, read_be32, lemma_be16_word, lemma_be32_word};

verus! {

/// Length of a TCP header without options, the only form this stack emits.
pub const TCP_HEADER_LEN: usize = 20;

/// A TCP segment header. The checksum is computed on serialization and
/// validated on parse, never stored; the urgent pointer is always zero.
#[derive(Clone, Copy, Debug, PartialEq, Eq, Structural)]
pub struct TcpHeader {
    pub src_port: u16,
    pub dst_port: u16,
    pub seq_num: u32,
    pub ack_num: u32,
    pub syn: bool,
    pub ack: bool,
    pub fin: bool,
    pub rst: bool,
    pub psh: bool,
    pub window_size: u16,
}

/// The flags byte: FIN, SYN, RST, PSH, ACK from least significant bit up.
pub open spec fn spec_flags_byte(h: TcpHeader) -> u8 {
    ((if h.fin { 1int } else { 0int }) + (if h.syn { 2int } else { 0int }) + (if h.rst {
        4int
    } else {
        0int
    }) + (if h.psh { 8int } else { 0int }) + (if h.ack { 16int } else { 0int })) as u8
}

/// The first sixteen header bytes: ports, sequence and acknowledgment
/// numbers, data offset 5 words, flags, window.
pub open spec fn tcp_hdr_core(h: TcpHeader) -> Seq<u8> {
    be16(h.src_port) + be16(h.dst_port) + be32(h.seq_num) + be32(h.ack_num) + seq![
        0x50u8,
        spec_flags_byte(h),
    ] + be16(h.window_size)
}

/// The full 20-byte header image with checksum `c` in place.
pub open spec fn spec_tcp_hdr(h: TcpHeader, c: u16) -> Seq<u8> {
    tcp_hdr_core(h) + be16(c) + seq![0u8, 0u8]
}

/// The pseudo-header the TCP checksum covers: both addresses, the protocol,
/// and the length of header plus payload.
pub open spec fn pseudo_hdr(src: Ipv4Addr, dst: Ipv4Addr, tcp_len: u16) -> Seq<u8> {
    src@ + dst@ + seq![0u8, 6u8] + be16(tcp_len)
}

/// The segment checksum: over the pseudo-header, the header with its
/// checksum field zero, and the payload.
pub open spec fn spec_tcp_checksum(
    h: TcpHeader,
    src: Ipv4Addr,
    dst: Ipv4Addr,
    payload: Seq<u8>,
) -> u16 {
    spec_checksum(
        pseudo_hdr(src, dst, (20 + payload.len()) as u16) + (tcp_hdr_core(h) + seq![0u8, 0u8]
            + seq![0u8, 0u8]) + payload,
    )
}

/// The wire image of `h` followed by `payload`, between `src` and `dst`.
pub open spec fn spec_serialize_tcp(
    h: TcpHeader,
    src: Ipv4Addr,
    dst: Ipv4Addr,
    payload: Seq<u8>,
) -> Seq<u8> {
    spec_tcp_hdr(h, spec_tcp_checksum(h, src, dst, payload)) + payload
}

/// What parsing a segment between `src` and `dst` yields; with `check` set, a
/// segment whose checksum does not validate yields nothing.
pub open spec fn spec_parse_tcp(src: Ipv4Addr, dst: Ipv4Addr, b: Seq<u8>, check: bool) -> Option<
    (TcpHeader, Seq<u8>),
> {
    if b.len() < 20 || b.len() > 0xFFFF {
        None
    } else if b[12] / 16 < 5 || 4 * (b[12] / 16) > b.len() {
        None
    } else if check && !valid_sum(pseudo_hdr(src, dst, b.len() as u16) + b) {
        None
    } else {
        Some(
            (
                TcpHeader {
                    src_port: word16(b[0], b[1]),
                    dst_port: word16(b[2], b[3]),
                    seq_num: word32(b[4], b[5], b[6], b[7]),
                    ack_num: word32(b[8], b[9], b[10], b[11]),
                    syn: b[13] / 2 % 2 == 1,
                    ack: b[13] / 16 % 2 == 1,
                    fin: b[13] % 2 == 1,
                    rst: b[13] / 4 % 2 == 1,
                    psh: b[13] / 8 % 2 == 1,
                    window_size: word16(b[14], b[15]),
                },
                b.subrange(4 * (b[12] / 16) as int, b.len() as int),
            ),
        )
    }
}

/// Each flag comes back out of the flags byte it was packed into.
pub proof fn lemma_flags_round_trip(h: TcpHeader)
    ensures
        (spec_flags_byte(h) % 2 == 1) == h.fin,
        (spec_flags_byte(h) / 2 % 2 == 1) == h.syn,
        (spec_flags_byte(h) / 4 % 2 == 1) == h.rst,
        (spec_flags_byte(h) / 8 % 2 == 1) == h.psh,
        (spec_flags_byte(h) / 16 % 2 == 1) == h.ack,
{
    let a: u8 = if h.fin { 1 } else { 0 };
    let b: u8 = if h.syn { 1 } else { 0 };
    let c: u8 = if h.rst { 1 } else { 0 };
    let d: u8 = if h.psh { 1 } else { 0 };
    let e: u8 = if h.ack { 1 } else { 0 };
    let f = spec_flags_byte(h);
    assert(f == a + 2 * b + 4 * c + 8 * d + 16 * e);
    assert(f % 2 == a && f / 2 % 2 == b && f / 4 % 2 == c && f / 8 % 2 == d && f / 16 % 2 == e)
        by (bit_vector)
        requires
            f == a + 2 * b + 4 * c + 8 * d + 16 * e,
            a <= 1,
            b <= 1,
            c <= 1,
            d <= 1,
            e <= 1,
    ;
}

/// Serializing then parsing, checksum validation included, gives back exactly
/// the header and payload.
pub proof fn lemma_tcp_round_trip(h: TcpHeader, src: Ipv4Addr, dst: Ipv4Addr, payload: Seq<u8>)
    requires
        payload.len() + 20 <= 0xFFFF,
    ensures
        spec_parse_tcp(src, dst, spec_serialize_tcp(h, src, dst, payload), true) == Some(
            (h, payload),
        ),
{
    let tcp_len = (20 + payload.len()) as u16;
    let c = spec_tcp_checksum(h, src, dst, payload);
    let core = tcp_hdr_core(h);
    let ps = pseudo_hdr(src, dst, tcp_len);
    let b = spec_serialize_tcp(h, src, dst, payload);
    assert(core.len() == 16);
    assert(ps.len() == 12);
    assert(b.len() == 20 + payload.len());
    assert(b[12] == 0x50u8);
    assert(b[13] == spec_flags_byte(h));
    assert(b[12] / 16 == 5);
    let x = ps + core;
    let y = seq![0u8, 0u8] + payload;
    lemma_inserted_checksum_validates(x, y);
    assert(x + seq![0u8, 0u8] + y =~= ps + (core + seq![0u8, 0u8] + seq![0u8, 0u8]) + payload);
    assert(c == spec_checksum(x + seq![0u8, 0u8] + y));
    assert(x + be16(c) + y =~= ps + b);
    assert(valid_sum(ps + b));
    let parsed = spec_parse_tcp(src, dst, b, true).unwrap();
    assert(b[0] == be16(h.src_port)[0]);
    assert(b[1] == be16(h.src_port)[1]);
    lemma_be16_word(h.src_port);
    assert(b[2] == be16(h.dst_port)[0]);
    assert(b[3] == be16(h.dst_port)[1]);
    lemma_be16_word(h.dst_port);
    assert(b[4] == be32(h.seq_num)[0]);
    assert(b[5] == be32(h.seq_num)[1]);
    assert(b[6] == be32(h.seq_num)[2]);
    assert(b[7] == be32(h.seq_num)[3]);
    lemma_be32_word(h.seq_num);
    assert(b[8] == be32(h.ack_num)[0]);
    assert(b[9] == be32(h.ack_num)[1]);
    assert(b[10] == be32(h.ack_num)[2]);
    assert(b[11] == be32(h.ack_num)[3]);
    lemma_be32_word(h.ack_num);
    assert(b[14] == be16(h.window_size)[0]);
    assert(b[15] == be16(h.window_size)[1]);
    lemma_be16_word(h.window_size);
    lemma_flags_round_trip(h);
    assert(parsed.0 == h);
    assert(b.subrange(20, b.len() as int) =~= payload);
    assert(parsed.1 == payload);
}

/// Appends the pseudo-header for a segment of `tcp_len` bytes.
fn push_pseudo_hdr(v: &mut Vec<u8>, src: Ipv4Addr, dst: Ipv4Addr, tcp_len: u16) -> (nothing: ())
    ensures
        final(v)@ == old(v)@ + pseudo_hdr(src, dst, tcp_len),
{
    v.push(src.o0);
    v.push(src.o1);
    v.push(src.o2);
    v.push(src.o3);
    v.push(dst.o0);
    v.push(dst.o1);
    v.push(dst.o2);
    v.push(dst.o3);
    v.push(0);
    v.push(6);
    push_be16(v, tcp_len);
    assert(v@ =~= old(v)@ + pseudo_hdr(src, dst, tcp_len));
}

/// Appends the first sixteen header bytes of `h`.
fn push_core(v: &mut Vec<u8>, h: &TcpHeader) -> (nothing: ())
    ensures
        final(v)@ == old(v)@ + tcp_hdr_core(*h),
{
    push_be16(v, h.src_port);
    push_be16(v, h.dst_port);
    push_be32(v, h.seq_num);
    push_be32(v, h.ack_num);
    v.push(0x50);
    let f: u8 = (if h.fin { 1u8 } else { 0u8 }) + (if h.syn { 2u8 } else { 0u8 }) + (if h.rst {
        4u8
    } else {
        0u8
    }) + (if h.psh { 8u8 } else { 0u8 }) + (if h.ack { 16u8 } else { 0u8 });
    assert(f == spec_flags_byte(*h));
    v.push(f);
    push_be16(v, h.window_size);
    assert(v@ =~= old(v)@ + tcp_hdr_core(*h));
}

impl TcpHeader {
    /// Renders this header, checksum included, followed by `payload`; the
    /// addresses of `ipv4_hdr` feed the pseudo-header.
    pub fn serialize(&self, ipv4_hdr: &Ipv4Header, payload: &Vec<u8>) -> (r: Vec<u8>)
        requires
            payload@.len() + 20 <= 0xFFFF,
        ensures
            r@ == spec_serialize_tcp(*self, ipv4_hdr.src_addr, ipv4_hdr.dst_addr, payload@),
    {
        let tcp_len: u16 = 20 + (payload.len() as u16);
        let src = ipv4_hdr.src_addr;
        let dst = ipv4_hdr.dst_addr;
        let mut tmp: Vec<u8> = Vec::new();
        push_pseudo_hdr(&mut tmp, src, dst, tcp_len);
        push_core(&mut tmp, self);
        tmp.push(0);
        tmp.push(0);
        tmp.push(0);
        tmp.push(0);
        push_all(&mut tmp, payload);
        assert(tmp@ =~= pseudo_hdr(src, dst, tcp_len) + (tcp_hdr_core(*self) + seq![0u8, 0u8]
            + seq![0u8, 0u8]) + payload@);
        let c = compute_checksum(&tmp);
        let mut r: Vec<u8> = Vec::new();
        push_core(&mut r, self);
        push_be16(&mut r, c);
        r.push(0);
        r.push(0);
        push_all(&mut r, payload);
        assert(r@ =~= spec_serialize_tcp(*self, src, dst, payload@));
        r
    }

    /// Splits a segment into its header and payload; with `check` set, a
    /// segment whose checksum does not validate is rejected.
    pub fn parse(ipv4_hdr: &Ipv4Header, b: &Vec<u8>, check: bool) -> (r: Result<
        (TcpHeader, Vec<u8>),
        Fail,
    >)
        ensures
            match r {
                Ok((h, p)) => spec_parse_tcp(ipv4_hdr.src_addr, ipv4_hdr.dst_addr, b@, check)
                    == Some((h, p@)),
                Err(e) => spec_parse_tcp(ipv4_hdr.src_addr, ipv4_hdr.dst_addr, b@, check) is None
                    && e == Fail::Malformed,
            },
    {
        let n = b.len();
        if n < 20 || n > 0xFFFF {
            return Err(Fail::Malformed);
        }
        let off_words = b[12] / 16;
        let off: usize = 4 * (off_words as usize);
        if off_words < 5 || off > n {
            return Err(Fail::Malformed);
        }
        if check {
            let src = ipv4_hdr.src_addr;
            let dst = ipv4_hdr.dst_addr;
            let mut tmp: Vec<u8> = Vec::new();
            push_pseudo_hdr(&mut tmp, src, dst, n as u16);
            push_all(&mut tmp, b);
            let sum = internet_sum(&tmp);
            if sum != 0xFFFF {
                return Err(Fail::Malformed);
            }
        }
        let flags = b[13];
        let h = TcpHeader {
            src_port: read_be16(b, 0),
            dst_port: read_be16(b, 2),
            seq_num: read_be32(b, 4),
            ack_num: read_be32(b, 8),
            syn: flags / 2 % 2 == 1,
            ack: flags / 16 % 2 == 1,
            fin: flags % 2 == 1,
            rst: flags / 4 % 2 == 1,
            psh: flags / 8 % 2 == 1,
            window_size: read_be16(b, 14),
        };
        let p = copy_range(b, off, n);
        Ok((h, p))
    }
}

} // verus!
