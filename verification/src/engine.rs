//! Packet ingress and the per-frame engine step.
//!
//! `ingest` turns one raw frame into a flow key, validated header views
//! and payload bounds, refusing anything that is not a well-formed
//! IPv4/TCP segment; `handle_frame` runs one full iteration of the event
//! loop minus the I/O: ingest, dispatch, and serialisation of the reply.

use vstd::prelude::*;
use crate::table::ConnectionTable;
use crate::table::FlowKey;
use crate::table::flow_key_of;
use crate::tcp::accepted_connection;
use crate::tcp::step;
use crate::tcp::syn_ack_reply;
use crate::wire::IpView;
use crate::wire::TcpView;
use crate::wire::emit_segment;
use crate::wire::ipv4_view_of;
use crate::wire::parse_ipv4;
use crate::wire::parse_tcp;
use crate::wire::segment_bytes;
use crate::wire::tcp_view_of;
use crate::wire::valid_ipv4;
use crate::wire::valid_tcp;

verus! {

/// How many bytes of link-layer framing precede the IP packet: a 2-byte
/// flags field and a 2-byte ethertype field, or nothing, depending on the
/// interface mode.
pub open spec fn prefix_len(prefixed: bool) -> int {
    if prefixed {
        4int
    } else {
        0int
    }
}

/// The frame's IP packet: the frame with any link-layer prefix stripped.
pub open spec fn ip_bytes_of(frame: Seq<u8>, prefixed: bool) -> Seq<u8> {
    if prefixed {
        frame.skip(4)
    } else {
        frame
    }
}

/// The link-layer prefix, when expected, is present and carries the IPv4
/// ethertype 0x0800.
pub open spec fn prefix_ok(frame: Seq<u8>, prefixed: bool) -> bool {
    prefixed ==> frame.len() >= 4 && frame[2] == 8 && frame[3] == 0
}

/// A frame reaches dispatch exactly when: its link-layer prefix, if any,
/// announces IPv4; it starts with a valid IPv4 header; the protocol is
/// TCP (6); a valid TCP header follows the IP header; and the two
/// headers fit inside the IP total length, so the payload is a
/// well-defined slice.
pub open spec fn ingest_ok(frame: Seq<u8>, prefixed: bool) -> bool {
    let s = ip_bytes_of(frame, prefixed);
    &&& prefix_ok(frame, prefixed)
    &&& valid_ipv4(s)
    &&& ipv4_view_of(s).protocol == 6
    &&& valid_tcp(s.skip(ipv4_view_of(s).header_len as int))
    &&& ipv4_view_of(s).header_len + tcp_view_of(
        s.skip(ipv4_view_of(s).header_len as int),
    ).header_len <= ipv4_view_of(s).total_len
}

/// The IP header view of an acceptable frame.
pub open spec fn frame_ip_view(frame: Seq<u8>, prefixed: bool) -> IpView {
    ipv4_view_of(ip_bytes_of(frame, prefixed))
}

/// The TCP header view of an acceptable frame.
pub open spec fn frame_tcp_view(frame: Seq<u8>, prefixed: bool) -> TcpView {
    tcp_view_of(
        ip_bytes_of(frame, prefixed).skip(frame_ip_view(frame, prefixed).header_len as int),
    )
}

/// What ingest hands to dispatch: the flow key, the two validated header
/// views, and the payload's bounds within the inbound frame.
#[derive(Clone, Copy, Debug, PartialEq, Eq, Structural)]
pub struct IngestResult {
    pub key: FlowKey,
    pub ip: IpView,
    pub tcp: TcpView,
    /// First payload byte: after the prefix and both headers.
    pub payload_start: usize,
    /// One past the last payload byte: the end of the IP total length.
    pub payload_end: usize,
}

/// Validate and dissect one raw frame.
///
/// Returns the flow key, header views and payload bounds exactly when
/// the frame is an acceptable IPv4/TCP segment; anything truncated,
/// malformed or of another protocol yields `None`, never a panic. In
/// particular a frame shorter than the 20-byte minimum IPv4 header is
/// always refused, and a frame whose protocol field is not TCP never
/// reaches dispatch.
pub fn ingest(frame: &[u8], prefixed: bool) -> (r: Option<IngestResult>)
    ensures
        r is Some <==> ingest_ok(frame@, prefixed),
        r is Some ==> ({
            let ig = r->Some_0;
            let s = ip_bytes_of(frame@, prefixed);
            &&& ig.ip == frame_ip_view(frame@, prefixed)
            &&& ig.tcp == frame_tcp_view(frame@, prefixed)
            &&& ig.key == flow_key_of(ig.ip, ig.tcp)
            &&& ig.payload_start == prefix_len(prefixed) + ig.ip.header_len + ig.tcp.header_len
            &&& ig.payload_end == prefix_len(prefixed) + ig.ip.total_len
            &&& ig.payload_start <= ig.payload_end <= frame@.len()
            &&& ig.payload_end - ig.payload_start <= 0xffff
        }),
        frame@.len() < 20 ==> r is None,
        valid_ipv4(ip_bytes_of(frame@, prefixed)) && frame_ip_view(frame@, prefixed).protocol != 6
            ==> r is None,
{
    let s: &[u8] = if prefixed {
        if frame.len() < 4 {
            return None;
        }
        if !(frame[2] == 8 && frame[3] == 0) {
            return None;
        }
        &frame[4..frame.len()]
    } else {
        frame
    };
    proof {
        assert(s@ =~= ip_bytes_of(frame@, prefixed));
    }
    let ip = match parse_ipv4(s) {
        Some(ip) => ip,
        None => {
            return None;
        },
    };
    if ip.protocol != 6 {
        return None;
    }
    let tcp_slice = &s[ip.header_len..s.len()];
    proof {
        assert(tcp_slice@ =~= s@.skip(ip.header_len as int));
    }
    let tcp = match parse_tcp(tcp_slice) {
        Some(tcp) => tcp,
        None => {
            return None;
        },
    };
    if ip.header_len + tcp.header_len > ip.total_len as usize {
        return None;
    }
    let pl: usize = if prefixed {
        4
    } else {
        0
    };
    Some(
        IngestResult {
            key: FlowKey {
                src_addr: ip.src,
                src_port: tcp.src_port,
                dst_addr: ip.dst,
                dst_port: tcp.dst_port,
            },
            ip,
            tcp,
            payload_start: pl + ip.header_len + tcp.header_len,
            payload_end: pl + ip.total_len as usize,
        },
    )
}

/// What one engine iteration asks of the caller.
pub struct FrameOutcome {
    /// A serialised reply packet to write to the interface, if any.
    pub reply: Option<Vec<u8>>,
    /// The bounds, within the inbound frame, of payload to hand to the
    /// application sink, if any.
    pub deliver: Option<(usize, usize)>,
}

/// One full engine iteration on one raw frame: ingest, dispatch to the
/// connection table, and serialisation of the reply segment.
///
/// A frame that ingest refuses — truncated, malformed, non-IPv4 or
/// non-TCP — changes no connection, produces no reply and delivers
/// nothing. An acceptable frame is dispatched under its flow key, the
/// table is updated exactly as `ConnectionTable::dispatch` states, the
/// reply segment, if any, comes back serialised with its checksums, and
/// the payload bounds come back when the segment's payload is to be
/// delivered. `iss` is the initial send sequence number used if the
/// frame opens a new connection.
pub fn handle_frame(table: &mut ConnectionTable, frame: &[u8], prefixed: bool, iss: u32) -> (r:
    FrameOutcome)
    requires
        old(table).wf(),
    ensures
        final(table).wf(),
        !ingest_ok(frame@, prefixed) ==> final(table)@ == old(table)@ && r.reply is None
            && r.deliver is None,
        ingest_ok(frame@, prefixed) ==> ({
            let ip = frame_ip_view(frame@, prefixed);
            let tcp = frame_tcp_view(frame@, prefixed);
            let k = flow_key_of(ip, tcp);
            let pstart = prefix_len(prefixed) + ip.header_len + tcp.header_len;
            let pend = prefix_len(prefixed) + ip.total_len;
            let plen = pend - pstart;
            if old(table)@.contains_key(k) {
                let st = step(old(table)@[k], ip, tcp, plen);
                &&& final(table)@ == if st.outcome.closed {
                    old(table)@.remove(k)
                } else {
                    old(table)@.insert(k, st.next)
                }
                &&& st.outcome.reply is Some ==> r.reply is Some && r.reply->Some_0@
                    == segment_bytes(st.outcome.reply->Some_0)
                &&& st.outcome.reply is None ==> r.reply is None
                &&& r.deliver == if st.outcome.deliver {
                    Some((pstart as usize, pend as usize))
                } else {
                    None::<(usize, usize)>
                }
            } else if tcp.syn && !tcp.ack {
                &&& final(table)@ == old(table)@.insert(k, accepted_connection(tcp, iss))
                &&& r.reply is Some && r.reply->Some_0@ == segment_bytes(syn_ack_reply(ip, tcp, iss))
                &&& r.deliver is None
            } else {
                &&& final(table)@ == old(table)@
                &&& r.reply is None
                &&& r.deliver is None
            }
        }),
{
    let ig = match ingest(frame, prefixed) {
        Some(ig) => ig,
        None => {
            return FrameOutcome { reply: None, deliver: None };
        },
    };
    let payload_len: usize = ig.payload_end - ig.payload_start;
    let outcome = table.dispatch(&ig.ip, &ig.tcp, payload_len, iss);
    let reply = match outcome.reply {
        Some(seg) => Some(emit_segment(&seg)),
        None => None,
    };
    let deliver = if outcome.deliver {
        Some((ig.payload_start, ig.payload_end))
    } else {
        None
    };
    FrameOutcome { reply, deliver }
}

} // verus!
