//! End-to-end engine tests: frames in, table state and reply packets out,
//! with etherparse as an independent oracle for the wire format.

use ustcp::engine::handle_frame;
use ustcp::table::ConnectionTable;
use ustcp::table::FlowKey;
use ustcp::tcp::State;

fn build_frame(
    src: [u8; 4],
    dst: [u8; 4],
    sport: u16,
    dport: u16,
    seq: u32,
    wnd: u16,
    syn: bool,
    ack: Option<u32>,
    fin: bool,
    rst: bool,
    payload: &[u8],
) -> Vec<u8> {
    let mut b = etherparse::PacketBuilder::ipv4(src, dst, 64).tcp(sport, dport, seq, wnd);
    if syn {
        b = b.syn();
    }
    if let Some(a) = ack {
        b = b.ack(a);
    }
    if fin {
        b = b.fin();
    }
    if rst {
        b = b.rst();
    }
    let mut out = Vec::with_capacity(b.size(payload.len()));
    b.write(&mut out, payload).unwrap();
    out
}

fn key_a_to_b() -> FlowKey {
    FlowKey { src_addr: 0x0a00_0001, src_port: 5000, dst_addr: 0x0a00_0002, dst_port: 80 }
}

#[test]
fn syn_handshake_scenario() {
    // IPv4 packet 10.0.0.1 -> 10.0.0.2, TCP 5000 -> 80, seq 1000, SYN,
    // window 64240.
    let frame = build_frame(
        [10, 0, 0, 1],
        [10, 0, 0, 2],
        5000,
        80,
        1000,
        64240,
        true,
        None,
        false,
        false,
        &[],
    );
    let mut table = ConnectionTable::new();
    let out = handle_frame(&mut table, &frame, false, 0);

    // Exactly one reply: 10.0.0.2 -> 10.0.0.1, 80 -> 5000, SYN+ACK,
    // acknowledgment number 1001.
    let reply = out.reply.expect("a SYN must provoke a SYN+ACK");
    let ip = etherparse::Ipv4HeaderSlice::from_slice(&reply).unwrap();
    assert_eq!(ip.source(), [10, 0, 0, 2]);
    assert_eq!(ip.destination(), [10, 0, 0, 1]);
    assert_eq!(u8::from(ip.protocol()), 6);
    let tcp = etherparse::TcpHeaderSlice::from_slice(&reply[20..]).unwrap();
    assert_eq!(tcp.source_port(), 80);
    assert_eq!(tcp.destination_port(), 5000);
    assert!(tcp.syn());
    assert!(tcp.ack());
    assert!(!tcp.fin());
    assert!(!tcp.rst());
    assert_eq!(tcp.acknowledgment_number(), 1001);
    assert_eq!(tcp.sequence_number(), 0);
    assert!(out.deliver.is_none());

    // Resulting connection: SynRcvd, recv.nxt == 1001.
    let conn = table.get(key_a_to_b()).expect("connection must exist");
    assert_eq!(conn.state, State::SynRcvd);
    assert_eq!(conn.recv.nxt, 1001);
    assert_eq!(conn.recv.irs, 1000);
    assert_eq!(conn.send.nxt, 1);
    assert_eq!(conn.send.una, 0);
    assert_eq!(conn.send.iss, 0);
    assert_eq!(conn.recv.wnd, 64240);
}

#[test]
fn reply_checksums_match_oracle() {
    let frame = build_frame(
        [10, 0, 0, 1],
        [10, 0, 0, 2],
        5000,
        80,
        1000,
        64240,
        true,
        None,
        false,
        false,
        &[],
    );
    let mut table = ConnectionTable::new();
    let out = handle_frame(&mut table, &frame, false, 0);
    let reply = out.reply.unwrap();
    let ip = etherparse::Ipv4HeaderSlice::from_slice(&reply).unwrap();
    let tcp = etherparse::TcpHeaderSlice::from_slice(&reply[20..]).unwrap();
    let ip_header = ip.to_header();
    assert_eq!(ip.header_checksum(), ip_header.calc_header_checksum());
    let tcp_header = tcp.to_header();
    assert_eq!(tcp.checksum(), tcp_header.calc_checksum_ipv4(&ip_header, &[]).unwrap());
    assert_eq!(reply.len(), 40);
    assert_eq!(usize::from(ip.total_len()), reply.len());
}

#[test]
fn non_syn_to_unknown_flow_is_dropped() {
    // A bare ACK for a flow nobody knows: no connection, no reply.
    let frame = build_frame(
        [10, 0, 0, 1],
        [10, 0, 0, 2],
        5000,
        80,
        1000,
        64240,
        false,
        Some(77),
        false,
        false,
        &[],
    );
    let mut table = ConnectionTable::new();
    let out = handle_frame(&mut table, &frame, false, 0);
    assert!(out.reply.is_none());
    assert!(out.deliver.is_none());
    assert!(table.get(key_a_to_b()).is_none());
}

#[test]
fn syn_with_ack_is_refused() {
    let frame = build_frame(
        [10, 0, 0, 1],
        [10, 0, 0, 2],
        5000,
        80,
        1000,
        64240,
        true,
        Some(77),
        false,
        false,
        &[],
    );
    let mut table = ConnectionTable::new();
    let out = handle_frame(&mut table, &frame, false, 0);
    assert!(out.reply.is_none());
    assert!(table.get(key_a_to_b()).is_none());
}

#[test]
fn handshake_ack_establishes() {
    let mut table = ConnectionTable::new();
    let syn = build_frame(
        [10, 0, 0, 1],
        [10, 0, 0, 2],
        5000,
        80,
        1000,
        64240,
        true,
        None,
        false,
        false,
        &[],
    );
    handle_frame(&mut table, &syn, false, 0);
    // The handshake-completing ACK: seq 1001, acknowledging our iss + 1.
    let ack = build_frame(
        [10, 0, 0, 1],
        [10, 0, 0, 2],
        5000,
        80,
        1001,
        64240,
        false,
        Some(1),
        false,
        false,
        &[],
    );
    let out = handle_frame(&mut table, &ack, false, 0);
    assert!(out.reply.is_none(), "a bare ACK is not answered");
    assert!(out.deliver.is_none());
    let conn = table.get(key_a_to_b()).unwrap();
    assert_eq!(conn.state, State::Established);
    assert_eq!(conn.send.una, 1);
    assert_eq!(conn.recv.nxt, 1001);
}

#[test]
fn stale_ack_is_ignored() {
    let mut table = ConnectionTable::new();
    let syn = build_frame(
        [10, 0, 0, 1],
        [10, 0, 0, 2],
        5000,
        80,
        1000,
        64240,
        true,
        None,
        false,
        false,
        &[],
    );
    handle_frame(&mut table, &syn, false, 9000);
    // An ACK below snd.una: outside (snd.una, snd.nxt], must not move it.
    let ack = build_frame(
        [10, 0, 0, 1],
        [10, 0, 0, 2],
        5000,
        80,
        1001,
        64240,
        false,
        Some(8999),
        false,
        false,
        &[],
    );
    handle_frame(&mut table, &ack, false, 0);
    let conn = table.get(key_a_to_b()).unwrap();
    assert_eq!(conn.state, State::SynRcvd);
    assert_eq!(conn.send.una, 9000);
}

#[test]
fn payload_is_delivered_and_acked() {
    let mut table = ConnectionTable::new();
    let syn = build_frame(
        [10, 0, 0, 1],
        [10, 0, 0, 2],
        5000,
        80,
        1000,
        64240,
        true,
        None,
        false,
        false,
        &[],
    );
    handle_frame(&mut table, &syn, false, 0);
    let data = build_frame(
        [10, 0, 0, 1],
        [10, 0, 0, 2],
        5000,
        80,
        1001,
        64240,
        false,
        Some(1),
        false,
        false,
        b"hello",
    );
    let out = handle_frame(&mut table, &data, false, 0);
    let (start, end) = out.deliver.expect("in-window payload must be delivered");
    assert_eq!(&data[start..end], b"hello");
    let reply = out.reply.expect("data must be acknowledged");
    let tcp = etherparse::TcpHeaderSlice::from_slice(&reply[20..]).unwrap();
    assert!(tcp.ack());
    assert!(!tcp.syn());
    assert_eq!(tcp.acknowledgment_number(), 1006);
    let conn = table.get(key_a_to_b()).unwrap();
    assert_eq!(conn.recv.nxt, 1006);
}

#[test]
fn out_of_window_segment_changes_nothing() {
    let mut table = ConnectionTable::new();
    let syn = build_frame(
        [10, 0, 0, 1],
        [10, 0, 0, 2],
        5000,
        80,
        1000,
        64240,
        true,
        None,
        false,
        false,
        &[],
    );
    handle_frame(&mut table, &syn, false, 0);
    // recv.nxt = 1001, recv.wnd = 64240: a segment at 1001 + 64240 falls
    // just outside [1001, 1001 + 64240).
    let stray = build_frame(
        [10, 0, 0, 1],
        [10, 0, 0, 2],
        5000,
        80,
        1001 + 64240,
        64240,
        false,
        Some(1),
        false,
        false,
        b"stray",
    );
    let out = handle_frame(&mut table, &stray, false, 0);
    assert!(out.deliver.is_none(), "payload outside the window must not be delivered");
    let reply = out.reply.expect("an unacceptable segment gets a corrective ACK");
    let tcp = etherparse::TcpHeaderSlice::from_slice(&reply[20..]).unwrap();
    assert!(tcp.ack());
    assert_eq!(tcp.acknowledgment_number(), 1001, "the corrective ACK carries recv.nxt");
    let conn = table.get(key_a_to_b()).unwrap();
    assert_eq!(conn.recv.nxt, 1001, "recv.nxt must not move");
    assert_eq!(conn.state, State::SynRcvd, "a stale ACK completes no handshake");
}

#[test]
fn window_acceptance_wraps_around() {
    let mut table = ConnectionTable::new();
    // SYN near the top of the sequence space: recv.nxt = 2^32 - 1.
    let syn = build_frame(
        [10, 0, 0, 1],
        [10, 0, 0, 2],
        5000,
        80,
        u32::MAX - 1,
        64240,
        true,
        None,
        false,
        false,
        &[],
    );
    handle_frame(&mut table, &syn, false, 0);
    // seq = 2^32 - 1 is in the window even though it is numerically
    // larger than every later sequence number.
    let data = build_frame(
        [10, 0, 0, 1],
        [10, 0, 0, 2],
        5000,
        80,
        u32::MAX,
        64240,
        false,
        Some(1),
        false,
        false,
        b"ab",
    );
    let out = handle_frame(&mut table, &data, false, 0);
    assert!(out.deliver.is_some());
    let conn = table.get(key_a_to_b()).unwrap();
    assert_eq!(conn.recv.nxt, 1, "2^32 - 1 advanced by two wraps to 1");
}

#[test]
fn rst_removes_connection() {
    let mut table = ConnectionTable::new();
    let syn = build_frame(
        [10, 0, 0, 1],
        [10, 0, 0, 2],
        5000,
        80,
        1000,
        64240,
        true,
        None,
        false,
        false,
        &[],
    );
    handle_frame(&mut table, &syn, false, 0);
    assert!(table.get(key_a_to_b()).is_some());
    let rst = build_frame(
        [10, 0, 0, 1],
        [10, 0, 0, 2],
        5000,
        80,
        1001,
        64240,
        false,
        None,
        false,
        true,
        &[],
    );
    let out = handle_frame(&mut table, &rst, false, 0);
    assert!(out.reply.is_none());
    assert!(out.deliver.is_none());
    assert!(table.get(key_a_to_b()).is_none(), "RST must tear the connection down");
}

#[test]
fn fin_starts_close_and_is_acked() {
    let mut table = ConnectionTable::new();
    let syn = build_frame(
        [10, 0, 0, 1],
        [10, 0, 0, 2],
        5000,
        80,
        1000,
        64240,
        true,
        None,
        false,
        false,
        &[],
    );
    handle_frame(&mut table, &syn, false, 0);
    let fin = build_frame(
        [10, 0, 0, 1],
        [10, 0, 0, 2],
        5000,
        80,
        1001,
        64240,
        false,
        Some(1),
        true,
        false,
        &[],
    );
    let out = handle_frame(&mut table, &fin, false, 0);
    let reply = out.reply.expect("a FIN must be acknowledged");
    let tcp = etherparse::TcpHeaderSlice::from_slice(&reply[20..]).unwrap();
    assert!(tcp.ack());
    assert_eq!(tcp.acknowledgment_number(), 1002, "the FIN consumes one sequence number");
    let conn = table.get(key_a_to_b()).unwrap();
    assert_eq!(conn.state, State::Closing);
    assert_eq!(conn.recv.nxt, 1002);
}

#[test]
fn duplicate_syn_does_not_reset_connection() {
    let mut table = ConnectionTable::new();
    let syn = build_frame(
        [10, 0, 0, 1],
        [10, 0, 0, 2],
        5000,
        80,
        1000,
        64240,
        true,
        None,
        false,
        false,
        &[],
    );
    handle_frame(&mut table, &syn, false, 4242);
    // The same SYN again: its sequence number sits one before recv.nxt,
    // outside the window, so the connection is untouched and the peer is
    // told where we stand.
    let out = handle_frame(&mut table, &syn, false, 9999);
    let reply = out.reply.expect("a duplicate SYN gets a corrective ACK");
    let tcp = etherparse::TcpHeaderSlice::from_slice(&reply[20..]).unwrap();
    assert!(tcp.ack());
    assert!(!tcp.syn(), "no second handshake is started");
    assert_eq!(tcp.acknowledgment_number(), 1001);
    let conn = table.get(key_a_to_b()).unwrap();
    assert_eq!(conn.send.iss, 4242, "the first handshake's state survives");
    assert_eq!(conn.state, State::SynRcvd);
}

#[test]
fn reversed_flows_coexist() {
    let mut table = ConnectionTable::new();
    let syn_ab = build_frame(
        [10, 0, 0, 1],
        [10, 0, 0, 2],
        5000,
        80,
        111,
        64240,
        true,
        None,
        false,
        false,
        &[],
    );
    let syn_ba = build_frame(
        [10, 0, 0, 2],
        [10, 0, 0, 1],
        80,
        5000,
        222,
        64240,
        true,
        None,
        false,
        false,
        &[],
    );
    handle_frame(&mut table, &syn_ab, false, 0);
    handle_frame(&mut table, &syn_ba, false, 0);
    let ab = table.get(key_a_to_b()).expect("forward flow");
    let ba = table
        .get(FlowKey {
            src_addr: 0x0a00_0002,
            src_port: 80,
            dst_addr: 0x0a00_0001,
            dst_port: 5000,
        })
        .expect("reversed flow");
    assert_eq!(ab.recv.irs, 111);
    assert_eq!(ba.recv.irs, 222);
    // Touching one flow leaves the other alone.
    let rst = build_frame(
        [10, 0, 0, 1],
        [10, 0, 0, 2],
        5000,
        80,
        112,
        64240,
        false,
        None,
        false,
        true,
        &[],
    );
    handle_frame(&mut table, &rst, false, 0);
    assert!(table.get(key_a_to_b()).is_none());
    let ba_after = table.get(FlowKey {
        src_addr: 0x0a00_0002,
        src_port: 80,
        dst_addr: 0x0a00_0001,
        dst_port: 5000,
    });
    assert_eq!(ba_after.unwrap().recv.irs, 222);
}
