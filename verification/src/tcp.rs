//! The per-flow TCP state machine.
//!
//! A `Connection` tracks one peer-to-local flow: its state, its send
//! sequence space and its receive sequence space, in RFC793 terms.
//! `accept` runs the inbound half of the three-way handshake; `on_packet`
//! runs the segment-acceptability test and the sequence-space bookkeeping
//! for every later segment. Both are pure of I/O: replies come back to the
//! caller as a constructed segment, never written to a device here.

use vstd::prelude::*;
use crate::seqnum::in_ack_range;
use crate::seqnum::in_window;
use crate::seqnum::lemma_dist_of_add;
use crate::seqnum::lemma_dist_split;
use crate::seqnum::seq_add;
use crate::seqnum::seq_advance;
use crate::seqnum::seq_dist;
use crate::seqnum::seq_in_ack_range;
use crate::seqnum::seq_in_window;
use crate::wire::IpView;
use crate::wire::SegmentOut;
use crate::wire::TcpView;
use crate::wire::ipv4_view_of;
use crate::wire::lemma_emitted_segment_parses;
use crate::wire::segment_bytes;
use crate::wire::tcp_view_of;

verus! {

/// The window this side advertises to its peers.
pub const SEND_WINDOW: u16 = 64240;

/// The states of one flow. `Listen` is realised as absence from the
/// connection table; `Closed` as removal from it.
#[derive(Clone, Copy, Debug, PartialEq, Eq, Structural)]
pub enum State {
    Listen,
    SynRcvd,
    Established,
    FinWait,
    Closing,
    TimeWait,
    Closed,
}

/// RFC793 send sequence space.
#[derive(Clone, Copy, Debug, PartialEq, Eq, Structural)]
pub struct SendSequenceSpace {
    /// Oldest unacknowledged sequence number.
    pub una: u32,
    /// Next sequence number to send.
    pub nxt: u32,
    /// The window this side advertises.
    pub wnd: u16,
    /// Initial send sequence number.
    pub iss: u32,
}

/// RFC793 receive sequence space.
#[derive(Clone, Copy, Debug, PartialEq, Eq, Structural)]
pub struct ReceiveSequenceSpace {
    /// Next sequence number expected from the peer.
    pub nxt: u32,
    /// The window accepted from the peer.
    pub wnd: u16,
    /// Initial receive sequence number, from the peer's SYN.
    pub irs: u32,
}

/// One flow's connection state.
#[derive(Clone, Copy, Debug, PartialEq, Eq, Structural)]
pub struct Connection {
    pub state: State,
    pub send: SendSequenceSpace,
    pub recv: ReceiveSequenceSpace,
}

/// What processing one segment asks of the caller.
#[derive(Clone, Copy, Debug, PartialEq, Eq, Structural)]
pub struct PacketOutcome {
    /// A reply segment to serialise and send, if any.
    pub reply: Option<SegmentOut>,
    /// Whether the segment's payload is handed to the application sink.
    pub deliver: bool,
    /// Whether the connection is closed and must leave the table.
    pub closed: bool,
}

/// One step of the state machine: the successor connection plus the
/// requested actions.
#[derive(Clone, Copy, Debug, PartialEq, Eq, Structural)]
pub struct Step {
    pub next: Connection,
    pub outcome: PacketOutcome,
}

impl Connection {
    /// This engine sends no data, so at most one sequence number (the
    /// SYN) is ever in flight: `snd.una` trails `snd.nxt` by at most one
    /// on the circle. This is the wraparound-aware form of the RFC793
    /// invariant `snd.una <= snd.nxt`.
    pub open spec fn wf(self) -> bool {
        seq_dist(self.send.una, self.send.nxt) <= 1
    }
}

/// The connection a valid SYN with sequence number `S` creates: state
/// `SynRcvd`, `rcv.irs = S`, `rcv.nxt = S + 1`, the peer's window
/// mirrored, and `snd.una = iss`, `snd.nxt = iss + 1` (the SYN consumes
/// one sequence number).
pub open spec fn accepted_connection(tcp: TcpView, iss: u32) -> Connection {
    Connection {
        state: State::SynRcvd,
        send: SendSequenceSpace { una: iss, nxt: seq_add(iss, 1), wnd: SEND_WINDOW, iss },
        recv: ReceiveSequenceSpace { nxt: seq_add(tcp.seq, 1), wnd: tcp.wnd, irs: tcp.seq },
    }
}

/// The SYN+ACK a valid SYN provokes: addresses and ports swapped,
/// sequence number `iss`, acknowledgment number `S + 1`.
pub open spec fn syn_ack_reply(ip: IpView, tcp: TcpView, iss: u32) -> SegmentOut {
    SegmentOut {
        src_addr: ip.dst,
        dst_addr: ip.src,
        src_port: tcp.dst_port,
        dst_port: tcp.src_port,
        seqno: iss,
        ackno: seq_add(tcp.seq, 1),
        syn: true,
        ack: true,
        wnd: SEND_WINDOW,
    }
}

/// A bare ACK from connection `c` to the segment's sender, carrying
/// `c.rcv.nxt`: sent both to answer accepted data and to correct a peer
/// whose segment fell outside the window.
pub open spec fn ack_reply(c: Connection, ip: IpView, tcp: TcpView) -> SegmentOut {
    SegmentOut {
        src_addr: ip.dst,
        dst_addr: ip.src,
        src_port: tcp.dst_port,
        dst_port: tcp.src_port,
        seqno: c.send.nxt,
        ackno: c.recv.nxt,
        syn: false,
        ack: true,
        wnd: c.send.wnd,
    }
}

/// The transition `on_packet` takes on connection `c` for a segment with
/// headers `ip`, `tcp` and `plen` payload bytes.
///
/// A segment whose sequence number falls outside `[rcv.nxt, rcv.nxt +
/// rcv.wnd)` modulo 2^32 changes nothing and is answered with a
/// corrective ACK. An acceptable segment advances `rcv.nxt` by the bytes
/// consumed (one more for a FIN), has its payload delivered, moves
/// `snd.una` to the acknowledgment number when that lies in
/// `(snd.una, snd.nxt]` modulo 2^32 (completing the handshake when it
/// covers the SYN), and drives the state by its control flags: RST closes
/// the connection at once (its payload is not delivered), FIN starts the
/// close sequence. Data and FIN segments are acknowledged; a bare ACK is
/// not answered.
pub open spec fn step(c: Connection, ip: IpView, tcp: TcpView, plen: int) -> Step {
    if !in_window(c.recv.nxt, c.recv.wnd, tcp.seq) {
        Step {
            next: c,
            outcome: PacketOutcome {
                reply: Some(ack_reply(c, ip, tcp)),
                deliver: false,
                closed: false,
            },
        }
    } else {
        let una2 = if tcp.ack && in_ack_range(c.send.una, c.send.nxt, tcp.ackno) {
            tcp.ackno
        } else {
            c.send.una
        };
        let state2 = if tcp.rst {
            State::Closed
        } else if tcp.fin {
            State::Closing
        } else if c.state is SynRcvd && tcp.ack && in_ack_range(c.send.una, c.send.nxt, tcp.ackno)
            && una2 == c.send.nxt {
            State::Established
        } else {
            c.state
        };
        let next = Connection {
            state: state2,
            send: SendSequenceSpace { una: una2, ..c.send },
            recv: ReceiveSequenceSpace {
                nxt: seq_add(c.recv.nxt, plen + if tcp.fin {
                    1int
                } else {
                    0int
                }),
                ..c.recv
            },
        };
        if tcp.rst {
            Step {
                next,
                outcome: PacketOutcome { reply: None, deliver: false, closed: true },
            }
        } else {
            Step {
                next,
                outcome: PacketOutcome {
                    reply: if plen > 0 || tcp.fin {
                        Some(ack_reply(next, ip, tcp))
                    } else {
                        None
                    },
                    deliver: plen > 0,
                    closed: false,
                },
            }
        }
    }
}

/// The handshake's reply, read back off the wire: for a SYN with
/// sequence number `S`, the serialised reply is one segment with SYN and
/// ACK set, acknowledgment number `S + 1`, sequence number `iss`, and
/// addresses and ports swapped relative to the inbound segment.
pub proof fn lemma_syn_ack_on_wire(ip: IpView, tcp: TcpView, iss: u32)
    ensures
        ({
            let bytes = segment_bytes(syn_ack_reply(ip, tcp, iss));
            let rip = ipv4_view_of(bytes);
            let rtcp = tcp_view_of(bytes.skip(20));
            &&& rip.src == ip.dst
            &&& rip.dst == ip.src
            &&& rtcp.src_port == tcp.dst_port
            &&& rtcp.dst_port == tcp.src_port
            &&& rtcp.syn
            &&& rtcp.ack
            &&& !rtcp.fin
            &&& !rtcp.rst
            &&& rtcp.ackno == seq_add(tcp.seq, 1)
            &&& rtcp.seq == iss
        }),
{
    lemma_emitted_segment_parses(syn_ack_reply(ip, tcp, iss));
}

impl Connection {
    /// The inbound half of the handshake, `Listen -> SynRcvd`: valid only
    /// for a segment with SYN set and ACK clear. On a valid SYN, returns
    /// the new connection together with the SYN+ACK reply to send; on
    /// anything else, returns nothing and no connection is created.
    ///
    /// `iss` is the initial send sequence number chosen by the caller,
    /// who should derive it from a clock and a per-process secret rather
    /// than a constant; the handshake is correct for every choice.
    pub fn accept(ip: &IpView, tcp: &TcpView, iss: u32) -> (r: Option<(Connection, SegmentOut)>)
        ensures
            r is Some <==> (tcp.syn && !tcp.ack),
            r is Some ==> r->Some_0.0 == accepted_connection(*tcp, iss),
            r is Some ==> r->Some_0.1 == syn_ack_reply(*ip, *tcp, iss),
            r is Some ==> r->Some_0.0.wf(),
            r is Some ==> r->Some_0.0.state is SynRcvd && r->Some_0.0.recv.nxt == seq_add(
                tcp.seq,
                1,
            ),
    {
        if !(tcp.syn && !tcp.ack) {
            return None;
        }
        let snd_nxt = seq_advance(iss, 1);
        let rcv_nxt = seq_advance(tcp.seq, 1);
        let connection = Connection {
            state: State::SynRcvd,
            send: SendSequenceSpace { una: iss, nxt: snd_nxt, wnd: SEND_WINDOW, iss },
            recv: ReceiveSequenceSpace { nxt: rcv_nxt, wnd: tcp.wnd, irs: tcp.seq },
        };
        proof {
            lemma_dist_of_add(iss, 1);
        }
        let reply = SegmentOut {
            src_addr: ip.dst,
            dst_addr: ip.src,
            src_port: tcp.dst_port,
            dst_port: tcp.src_port,
            seqno: iss,
            ackno: rcv_nxt,
            syn: true,
            ack: true,
            wnd: SEND_WINDOW,
        };
        Some((connection, reply))
    }

    /// Process one inbound segment on an existing connection: the
    /// transition is exactly `step`, and in particular a segment outside
    /// the receive window leaves the connection untouched and delivers
    /// nothing.
    pub fn on_packet(&mut self, ip: &IpView, tcp: &TcpView, payload_len: usize) -> (r:
        PacketOutcome)
        requires
            old(self).wf(),
            payload_len <= 0xffff,
        ensures
            *final(self) == step(*old(self), *ip, *tcp, payload_len as int).next,
            r == step(*old(self), *ip, *tcp, payload_len as int).outcome,
            final(self).wf(),
            !in_window(old(self).recv.nxt, old(self).recv.wnd, tcp.seq) ==> *final(self) == *old(
                self,
            ) && !r.deliver,
    {
        if !seq_in_window(self.recv.nxt, self.recv.wnd, tcp.seq) {
            return PacketOutcome {
                reply: Some(
                    SegmentOut {
                        src_addr: ip.dst,
                        dst_addr: ip.src,
                        src_port: tcp.dst_port,
                        dst_port: tcp.src_port,
                        seqno: self.send.nxt,
                        ackno: self.recv.nxt,
                        syn: false,
                        ack: true,
                        wnd: self.send.wnd,
                    },
                ),
                deliver: false,
                closed: false,
            };
        }
        if tcp.ack && seq_in_ack_range(self.send.una, self.send.nxt, tcp.ackno) {
            proof {
                lemma_dist_split(self.send.una, tcp.ackno, self.send.nxt);
            }
            self.send.una = tcp.ackno;
            if matches!(self.state, State::SynRcvd) && self.send.una == self.send.nxt {
                self.state = State::Established;
            }
        }
        let advance: u32 = (payload_len as u32) + (if tcp.fin {
            1u32
        } else {
            0u32
        });
        self.recv.nxt = seq_advance(self.recv.nxt, advance);
        if tcp.rst {
            self.state = State::Closed;
            return PacketOutcome { reply: None, deliver: false, closed: true };
        }
        if tcp.fin {
            self.state = State::Closing;
        }
        let reply = if payload_len > 0 || tcp.fin {
            Some(
                SegmentOut {
                    src_addr: ip.dst,
                    dst_addr: ip.src,
                    src_port: tcp.dst_port,
                    dst_port: tcp.src_port,
                    seqno: self.send.nxt,
                    ackno: self.recv.nxt,
                    syn: false,
                    ack: true,
                    wnd: self.send.wnd,
                },
            )
        } else {
            None
        };
        PacketOutcome { reply, deliver: payload_len > 0, closed: false }
    }
}

} // verus!
