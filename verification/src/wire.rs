//! The IPv4 and TCP wire format.
//!
//! Read-only header views are extracted from raw bytes by bounds-checked,
//! length-validated parsers, and reply segments are serialised back to
//! bytes, both against spec functions that state the byte layout directly.

use vstd::prelude::*;
use crate::checksum::checksum_of;
use crate::checksum::compute_checksum;

verus! {

/// A validated read-only view of an IPv4 header.
#[derive(Clone, Copy, Debug, PartialEq, Eq, Structural)]
pub struct IpView {
    /// Header length in bytes (IHL * 4), between 20 and 60.
    pub header_len: usize,
    /// The total-length field: header plus payload, in bytes.
    pub total_len: u16,
    /// The protocol field (6 for TCP).
    pub protocol: u8,
    /// Source address, big-endian as one integer.
    pub src: u32,
    /// Destination address, big-endian as one integer.
    pub dst: u32,
}

/// A validated read-only view of a TCP header.
#[derive(Clone, Copy, Debug, PartialEq, Eq, Structural)]
pub struct TcpView {
    pub src_port: u16,
    pub dst_port: u16,
    /// Sequence number of the first payload byte.
    pub seq: u32,
    /// Acknowledgment-number field (meaningful only when `ack` is set).
    pub ackno: u32,
    /// Header length in bytes (data offset * 4), between 20 and 60.
    pub header_len: usize,
    pub fin: bool,
    pub syn: bool,
    pub rst: bool,
    pub ack: bool,
    /// The advertised receive window.
    pub wnd: u16,
}

/// The big-endian 16-bit integer at offset `i` of `s`.
pub open spec fn be16_at(s: Seq<u8>, i: int) -> u16 {
    ((s[i] * 256 + s[i + 1]) as u16)
}

/// The big-endian 32-bit integer at offset `i` of `s`.
pub open spec fn be32_at(s: Seq<u8>, i: int) -> u32 {
    ((s[i] * 0x100_0000 + s[i + 1] * 0x1_0000 + s[i + 2] * 256 + s[i + 3]) as u32)
}

/// `s` starts with a structurally valid IPv4 header: long enough for the
/// fixed part, version 4, a header length of at least 20 bytes, and a
/// total length that covers the header and fits in the slice.
pub open spec fn valid_ipv4(s: Seq<u8>) -> bool {
    &&& s.len() >= 20
    &&& s[0] / 16 == 4
    &&& s[0] % 16 >= 5
    &&& (s[0] % 16) * 4 <= s.len()
    &&& (s[0] % 16) * 4 <= be16_at(s, 2)
    &&& be16_at(s, 2) <= s.len()
}

/// The view a valid IPv4 header at the start of `s` parses to.
pub open spec fn ipv4_view_of(s: Seq<u8>) -> IpView {
    IpView {
        header_len: ((s[0] % 16) * 4) as usize,
        total_len: be16_at(s, 2),
        protocol: s[9],
        src: be32_at(s, 12),
        dst: be32_at(s, 16),
    }
}

/// `s` starts with a structurally valid TCP header: long enough for the
/// fixed part and for its own data offset.
pub open spec fn valid_tcp(s: Seq<u8>) -> bool {
    &&& s.len() >= 20
    &&& s[12] / 16 >= 5
    &&& (s[12] / 16) * 4 <= s.len()
}

/// The view a valid TCP header at the start of `s` parses to.
pub open spec fn tcp_view_of(s: Seq<u8>) -> TcpView {
    TcpView {
        src_port: be16_at(s, 0),
        dst_port: be16_at(s, 2),
        seq: be32_at(s, 4),
        ackno: be32_at(s, 8),
        header_len: ((s[12] / 16) * 4) as usize,
        fin: s[13] % 2 == 1,
        syn: (s[13] / 2) % 2 == 1,
        rst: (s[13] / 4) % 2 == 1,
        ack: (s[13] / 16) % 2 == 1,
        wnd: be16_at(s, 14),
    }
}

/// Read the big-endian 16-bit integer at offset `i`.
fn read_be16(s: &[u8], i: usize) -> (r: u16)
    requires
        i + 2 <= s@.len(),
    ensures
        r == be16_at(s@, i as int),
{
    (s[i] as u16) * 256 + (s[i + 1] as u16)
}

/// Read the big-endian 32-bit integer at offset `i`.
fn read_be32(s: &[u8], i: usize) -> (r: u32)
    requires
        i + 4 <= s@.len(),
    ensures
        r == be32_at(s@, i as int),
{
    (s[i] as u32) * 0x100_0000 + (s[i + 1] as u32) * 0x1_0000 + (s[i + 2] as u32) * 256
        + (s[i + 3] as u32)
}

/// Parse an IPv4 header from the start of `s`.
///
/// Returns a view exactly when `s` starts with a structurally valid IPv4
/// header; truncated or malformed input yields `None`, never a panic.
pub fn parse_ipv4(s: &[u8]) -> (r: Option<IpView>)
    ensures
        r is Some <==> valid_ipv4(s@),
        r is Some ==> r->Some_0 == ipv4_view_of(s@),
{
    if s.len() < 20 {
        return None;
    }
    let version = s[0] / 16;
    let header_len: usize = ((s[0] % 16) as usize) * 4;
    if version != 4 || header_len < 20 || header_len > s.len() {
        return None;
    }
    let total_len = read_be16(s, 2);
    if (total_len as usize) < header_len || (total_len as usize) > s.len() {
        return None;
    }
    Some(IpView {
        header_len,
        total_len,
        protocol: s[9],
        src: read_be32(s, 12),
        dst: read_be32(s, 16),
    })
}

/// Parse a TCP header from the start of `s`.
///
/// Returns a view exactly when `s` starts with a structurally valid TCP
/// header; truncated or malformed input yields `None`, never a panic.
pub fn parse_tcp(s: &[u8]) -> (r: Option<TcpView>)
    ensures
        r is Some <==> valid_tcp(s@),
        r is Some ==> r->Some_0 == tcp_view_of(s@),
{
    if s.len() < 20 {
        return None;
    }
    let header_len: usize = ((s[12] / 16) as usize) * 4;
    if header_len < 20 || header_len > s.len() {
        return None;
    }
    let flags = s[13];
    Some(TcpView {
        src_port: read_be16(s, 0),
        dst_port: read_be16(s, 2),
        seq: read_be32(s, 4),
        ackno: read_be32(s, 8),
        header_len,
        fin: flags % 2 == 1,
        syn: (flags / 2) % 2 == 1,
        rst: (flags / 4) % 2 == 1,
        ack: (flags / 16) % 2 == 1,
        wnd: read_be16(s, 14),
    })
}

/// A reply segment the state machine asks egress to send: a header-only
/// TCP segment inside an IPv4 packet.
#[derive(Clone, Copy, Debug, PartialEq, Eq, Structural)]
pub struct SegmentOut {
    pub src_addr: u32,
    pub dst_addr: u32,
    pub src_port: u16,
    pub dst_port: u16,
    pub seqno: u32,
    pub ackno: u32,
    pub syn: bool,
    pub ack: bool,
    pub wnd: u16,
}

/// The two bytes of `x` in big-endian order.
pub open spec fn be16_bytes(x: u16) -> Seq<u8> {
    seq![(x / 256) as u8, (x % 256) as u8]
}

/// The four bytes of `x` in big-endian order.
pub open spec fn be32_bytes(x: u32) -> Seq<u8> {
    seq![
        (x / 0x100_0000) as u8,
        ((x / 0x1_0000) % 256) as u8,
        ((x / 256) % 256) as u8,
        (x % 256) as u8,
    ]
}

/// The TCP flags byte of a reply segment (only ACK and SYN are ever set).
pub open spec fn flags_byte(seg: SegmentOut) -> u8 {
    (((if seg.ack {
        16int
    } else {
        0int
    }) + (if seg.syn {
        2int
    } else {
        0int
    })) as u8)
}

/// The 20 bytes of the reply's IPv4 header with checksum field `hc`:
/// version 4, header length 20, total length 40, no fragmentation,
/// TTL 64, protocol TCP.
pub open spec fn ipv4_bytes_with(seg: SegmentOut, hc: u16) -> Seq<u8> {
    seq![0x45u8, 0u8] + be16_bytes(40) + be16_bytes(0) + be16_bytes(0) + seq![64u8, 6u8]
        + be16_bytes(hc) + be32_bytes(seg.src_addr) + be32_bytes(seg.dst_addr)
}

/// The 20 bytes of the reply's TCP header with checksum field `ck`:
/// data offset 5, no options, no payload.
pub open spec fn tcp_bytes_with(seg: SegmentOut, ck: u16) -> Seq<u8> {
    be16_bytes(seg.src_port) + be16_bytes(seg.dst_port) + be32_bytes(seg.seqno)
        + be32_bytes(seg.ackno) + seq![0x50u8, flags_byte(seg)] + be16_bytes(seg.wnd)
        + be16_bytes(ck) + be16_bytes(0)
}

/// The RFC793 pseudo-header the TCP checksum is computed over: addresses,
/// a zero byte, the protocol, and the TCP length (20: header only).
pub open spec fn pseudo_bytes(seg: SegmentOut) -> Seq<u8> {
    be32_bytes(seg.src_addr) + be32_bytes(seg.dst_addr) + seq![0u8, 6u8] + be16_bytes(20)
}

/// The reply's IPv4 header checksum: over the header with a zeroed
/// checksum field.
pub open spec fn ipv4_checksum(seg: SegmentOut) -> u16 {
    checksum_of(ipv4_bytes_with(seg, 0))
}

/// The reply's TCP checksum: over pseudo-header plus TCP header with a
/// zeroed checksum field.
pub open spec fn tcp_checksum(seg: SegmentOut) -> u16 {
    checksum_of(pseudo_bytes(seg) + tcp_bytes_with(seg, 0))
}

/// The 40 bytes a reply segment serialises to.
pub open spec fn segment_bytes(seg: SegmentOut) -> Seq<u8> {
    ipv4_bytes_with(seg, ipv4_checksum(seg)) + tcp_bytes_with(seg, tcp_checksum(seg))
}

proof fn lemma_be16_parts(x: u16)
    ensures
        x / 256 < 256,
        (x / 256) * 256 + (x % 256) == x,
{
    assert(x / 256 < 256 && (x / 256) * 256 + (x % 256) == x) by (nonlinear_arith);
}

proof fn lemma_be32_parts(x: u32)
    ensures
        x / 0x100_0000 < 256,
        (x / 0x100_0000) * 0x100_0000 + ((x / 0x1_0000) % 256) * 0x1_0000 + ((x / 256) % 256) * 256
            + (x % 256) == x,
{
    assert(x / 0x100_0000 < 256 && (x / 0x100_0000) * 0x100_0000 + ((x / 0x1_0000) % 256)
        * 0x1_0000 + ((x / 256) % 256) * 256 + (x % 256) == x) by (nonlinear_arith);
}

/// Parsing inverts serialisation: the 40 bytes a reply segment
/// serialises to are a valid IPv4 header announcing TCP followed by a
/// valid TCP header, and the two parsed views carry back exactly the
/// segment's addresses, ports, sequence numbers, flags and window.
pub proof fn lemma_emitted_segment_parses(seg: SegmentOut)
    ensures
        segment_bytes(seg).len() == 40,
        valid_ipv4(segment_bytes(seg)),
        ipv4_view_of(segment_bytes(seg)) == (IpView {
            header_len: 20,
            total_len: 40,
            protocol: 6,
            src: seg.src_addr,
            dst: seg.dst_addr,
        }),
        valid_tcp(segment_bytes(seg).skip(20)),
        tcp_view_of(segment_bytes(seg).skip(20)) == (TcpView {
            src_port: seg.src_port,
            dst_port: seg.dst_port,
            seq: seg.seqno,
            ackno: seg.ackno,
            header_len: 20,
            fin: false,
            syn: seg.syn,
            rst: false,
            ack: seg.ack,
            wnd: seg.wnd,
        }),
{
    let b = segment_bytes(seg);
    let ipb = ipv4_bytes_with(seg, ipv4_checksum(seg));
    let tcb = tcp_bytes_with(seg, tcp_checksum(seg));
    assert(ipb.len() == 20);
    assert(tcb.len() == 20);
    let t = b.skip(20);
    assert(t =~= tcb);

    assert(b[0] == 0x45u8);
    assert(b[2] == (40u16 / 256) as u8 && b[3] == (40u16 % 256) as u8);
    assert(be16_at(b, 2) == 40);
    assert(b[9] == 6u8);

    assert(b[12] == (seg.src_addr / 0x100_0000) as u8);
    assert(b[13] == ((seg.src_addr / 0x1_0000) % 256) as u8);
    assert(b[14] == ((seg.src_addr / 256) % 256) as u8);
    assert(b[15] == (seg.src_addr % 256) as u8);
    lemma_be32_parts(seg.src_addr);
    assert(be32_at(b, 12) == seg.src_addr);

    assert(b[16] == (seg.dst_addr / 0x100_0000) as u8);
    assert(b[17] == ((seg.dst_addr / 0x1_0000) % 256) as u8);
    assert(b[18] == ((seg.dst_addr / 256) % 256) as u8);
    assert(b[19] == (seg.dst_addr % 256) as u8);
    lemma_be32_parts(seg.dst_addr);
    assert(be32_at(b, 16) == seg.dst_addr);

    assert(valid_ipv4(b));

    assert(t[0] == (seg.src_port / 256) as u8 && t[1] == (seg.src_port % 256) as u8);
    lemma_be16_parts(seg.src_port);
    assert(be16_at(t, 0) == seg.src_port);

    assert(t[2] == (seg.dst_port / 256) as u8 && t[3] == (seg.dst_port % 256) as u8);
    lemma_be16_parts(seg.dst_port);
    assert(be16_at(t, 2) == seg.dst_port);

    assert(t[4] == (seg.seqno / 0x100_0000) as u8);
    assert(t[5] == ((seg.seqno / 0x1_0000) % 256) as u8);
    assert(t[6] == ((seg.seqno / 256) % 256) as u8);
    assert(t[7] == (seg.seqno % 256) as u8);
    lemma_be32_parts(seg.seqno);
    assert(be32_at(t, 4) == seg.seqno);

    assert(t[8] == (seg.ackno / 0x100_0000) as u8);
    assert(t[9] == ((seg.ackno / 0x1_0000) % 256) as u8);
    assert(t[10] == ((seg.ackno / 256) % 256) as u8);
    assert(t[11] == (seg.ackno % 256) as u8);
    lemma_be32_parts(seg.ackno);
    assert(be32_at(t, 8) == seg.ackno);

    assert(t[12] == 0x50u8);
    assert(t[13] == flags_byte(seg));
    if seg.ack {
        if seg.syn {
            assert(flags_byte(seg) == 18);
        } else {
            assert(flags_byte(seg) == 16);
        }
    } else {
        if seg.syn {
            assert(flags_byte(seg) == 2);
        } else {
            assert(flags_byte(seg) == 0);
        }
    }

    assert(t[14] == (seg.wnd / 256) as u8 && t[15] == (seg.wnd % 256) as u8);
    lemma_be16_parts(seg.wnd);
    assert(be16_at(t, 14) == seg.wnd);

    assert(valid_tcp(t));
}

/// Append the two big-endian bytes of `x`.
fn push_be16(v: &mut Vec<u8>, x: u16)
    ensures
        final(v)@ == old(v)@ + be16_bytes(x),
{
    v.push((x / 256) as u8);
    v.push((x % 256) as u8);
    assert(v@ =~= old(v)@ + be16_bytes(x));
}

/// Append the four big-endian bytes of `x`.
fn push_be32(v: &mut Vec<u8>, x: u32)
    ensures
        final(v)@ == old(v)@ + be32_bytes(x),
{
    v.push((x / 0x100_0000) as u8);
    v.push(((x / 0x1_0000) % 256) as u8);
    v.push(((x / 256) % 256) as u8);
    v.push((x % 256) as u8);
    assert(v@ =~= old(v)@ + be32_bytes(x));
}

/// Append the 20 TCP header bytes of `seg` with checksum field `ck`.
fn push_tcp_header(v: &mut Vec<u8>, seg: &SegmentOut, ck: u16)
    ensures
        final(v)@ == old(v)@ + tcp_bytes_with(*seg, ck),
{
    push_be16(v, seg.src_port);
    push_be16(v, seg.dst_port);
    push_be32(v, seg.seqno);
    push_be32(v, seg.ackno);
    v.push(0x50);
    let mut flags: u8 = 0;
    if seg.ack {
        flags = flags + 16;
    }
    if seg.syn {
        flags = flags + 2;
    }
    v.push(flags);
    push_be16(v, seg.wnd);
    push_be16(v, ck);
    push_be16(v, 0);
    assert(v@ =~= old(v)@ + tcp_bytes_with(*seg, ck));
}

/// Serialise a reply segment: IPv4 header, TCP header, no payload, both
/// checksums computed over the serialised bytes per RFC793.
pub fn emit_segment(seg: &SegmentOut) -> (out: Vec<u8>)
    ensures
        out@ == segment_bytes(*seg),
        out@.len() == 40,
{
    let mut out: Vec<u8> = Vec::new();
    out.push(0x45);
    out.push(0);
    push_be16(&mut out, 40);
    push_be16(&mut out, 0);
    push_be16(&mut out, 0);
    out.push(64);
    out.push(6);
    push_be16(&mut out, 0);
    push_be32(&mut out, seg.src_addr);
    push_be32(&mut out, seg.dst_addr);
    assert(out@ =~= ipv4_bytes_with(*seg, 0));
    let hc = compute_checksum(out.as_slice());
    out[10] = (hc / 256) as u8;
    out[11] = (hc % 256) as u8;
    assert(out@ =~= ipv4_bytes_with(*seg, ipv4_checksum(*seg)));

    let mut ck_buf: Vec<u8> = Vec::new();
    push_be32(&mut ck_buf, seg.src_addr);
    push_be32(&mut ck_buf, seg.dst_addr);
    ck_buf.push(0);
    ck_buf.push(6);
    push_be16(&mut ck_buf, 20);
    assert(ck_buf@ =~= pseudo_bytes(*seg));
    push_tcp_header(&mut ck_buf, seg, 0);
    let tc = compute_checksum(ck_buf.as_slice());

    push_tcp_header(&mut out, seg, tc);
    assert(out@ =~= segment_bytes(*seg));
    out
}

} // verus!
