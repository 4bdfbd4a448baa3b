//! The connection table: one `Connection` per flow identity.
//!
//! A `FlowKey` is the four-tuple that identifies one peer-to-local flow;
//! direction is not normalised, so the two directions of a conversation
//! are distinct keys. The table maps each key to at most one live
//! connection, routes every inbound segment to its connection, and
//! creates or removes connections as the handshake and teardown demand.
//! Its mathematical view is the `Map` from keys to connections.

use vstd::prelude::*;
use crate::tcp::Connection;
use crate::tcp::accepted_connection;
use crate::tcp::step;
use crate::tcp::syn_ack_reply;
use crate::wire::IpView;
use crate::wire::SegmentOut;
use crate::wire::TcpView;

verus! {

/// The four-tuple identifying one directional flow: the peer's address
/// and port, then the local address and port.
#[derive(Clone, Copy, Debug, PartialEq, Eq, Hash, Structural)]
pub struct FlowKey {
    pub src_addr: u32,
    pub src_port: u16,
    pub dst_addr: u32,
    pub dst_port: u16,
}

impl FlowKey {
    /// The key of the opposite direction: source and destination swapped.
    pub open spec fn reversed(self) -> FlowKey {
        FlowKey {
            src_addr: self.dst_addr,
            src_port: self.dst_port,
            dst_addr: self.src_addr,
            dst_port: self.src_port,
        }
    }
}

/// A flow key is distinct from its reversal unless the two endpoints are
/// literally the same address and port: the table keeps the two
/// directions of a conversation apart.
pub proof fn lemma_flow_key_directional(k: FlowKey)
    requires
        k.src_addr != k.dst_addr || k.src_port != k.dst_port,
    ensures
        k != k.reversed(),
{
}

/// The flow key an inbound segment is dispatched under.
pub open spec fn flow_key_of(ip: IpView, tcp: TcpView) -> FlowKey {
    FlowKey {
        src_addr: ip.src,
        src_port: tcp.src_port,
        dst_addr: ip.dst,
        dst_port: tcp.dst_port,
    }
}

/// No two entries share a key.
pub open spec fn unique_keys(s: Seq<(FlowKey, Connection)>) -> bool {
    forall|i: int, j: int|
        0 <= i < j < s.len() ==> (#[trigger] s[i]).0 != (#[trigger] s[j]).0
}

/// Some entry has key `k`.
pub open spec fn has_key(s: Seq<(FlowKey, Connection)>, k: FlowKey) -> bool {
    exists|i: int| 0 <= i < s.len() && (#[trigger] s[i]).0 == k
}

/// The map an entry sequence denotes; a later entry would win, though a
/// well-formed table never holds a key twice.
pub open spec fn map_of(s: Seq<(FlowKey, Connection)>) -> Map<FlowKey, Connection>
    decreases s.len(),
{
    if s.len() == 0 {
        Map::empty()
    } else {
        map_of(s.drop_last()).insert(s.last().0, s.last().1)
    }
}

proof fn lemma_map_of_domain(s: Seq<(FlowKey, Connection)>)
    ensures
        forall|k: FlowKey| #[trigger] map_of(s).contains_key(k) <==> has_key(s, k),
    decreases s.len(),
{
    if s.len() > 0 {
        let d = s.drop_last();
        lemma_map_of_domain(d);
        assert forall|k: FlowKey| #[trigger] map_of(s).contains_key(k) implies has_key(s, k) by {
            if k == s.last().0 {
                assert(s[s.len() - 1].0 == k);
            } else {
                assert(map_of(d).contains_key(k));
                assert(has_key(d, k));
                let i = choose|i: int| 0 <= i < d.len() && (#[trigger] d[i]).0 == k;
                assert(d[i] == s[i]);
                assert(s[i].0 == k);
            }
        }
        assert forall|k: FlowKey| has_key(s, k) implies #[trigger] map_of(s).contains_key(k) by {
            let i = choose|i: int| 0 <= i < s.len() && (#[trigger] s[i]).0 == k;
            if i < s.len() - 1 {
                assert(d[i] == s[i]);
                assert(d[i].0 == k);
                assert(has_key(d, k));
                assert(map_of(d).contains_key(k));
            }
        }
    }
}

proof fn lemma_map_of_index(s: Seq<(FlowKey, Connection)>, i: int)
    requires
        unique_keys(s),
        0 <= i < s.len(),
    ensures
        map_of(s).contains_key(s[i].0),
        map_of(s)[s[i].0] == s[i].1,
    decreases s.len(),
{
    if i < s.len() - 1 {
        assert(s.drop_last()[i] == s[i]);
        lemma_map_of_index(s.drop_last(), i);
        assert(s[i].0 != s.last().0);
    }
}

proof fn lemma_map_of_update(s: Seq<(FlowKey, Connection)>, i: int, c: Connection)
    requires
        unique_keys(s),
        0 <= i < s.len(),
    ensures
        map_of(s.update(i, (s[i].0, c))) == map_of(s).insert(s[i].0, c),
    decreases s.len(),
{
    let t = s.update(i, (s[i].0, c));
    if i == s.len() - 1 {
        assert(t.drop_last() =~= s.drop_last());
        assert(map_of(t) =~= map_of(s).insert(s[i].0, c));
    } else {
        lemma_map_of_update(s.drop_last(), i, c);
        assert(t.drop_last() =~= s.drop_last().update(i, (s[i].0, c)));
        assert(t.last() == s.last());
        assert(s[i].0 != s.last().0);
        assert(map_of(t) =~= map_of(s).insert(s[i].0, c));
    }
}

proof fn lemma_map_of_push(s: Seq<(FlowKey, Connection)>, k: FlowKey, c: Connection)
    ensures
        map_of(s.push((k, c))) == map_of(s).insert(k, c),
{
    assert(s.push((k, c)).drop_last() =~= s);
    assert(s.push((k, c)).last() == (k, c));
}

proof fn lemma_map_of_swap_remove(s: Seq<(FlowKey, Connection)>, i: int)
    requires
        unique_keys(s),
        0 <= i < s.len(),
    ensures
        map_of(s.update(i, s.last()).drop_last()) == map_of(s).remove(s[i].0),
        unique_keys(s.update(i, s.last()).drop_last()),
{
    let t = s.update(i, s.last()).drop_last();
    let k = s[i].0;
    assert forall|a: int, b: int| 0 <= a < b < t.len() implies (#[trigger] t[a]).0 != (
    #[trigger] t[b]).0 by {
        assert(t[a] == if a == i {
            s.last()
        } else {
            s[a]
        });
        assert(t[b] == if b == i {
            s.last()
        } else {
            s[b]
        });
    }
    lemma_map_of_domain(s);
    lemma_map_of_domain(t);
    assert forall|x: FlowKey| #[trigger] map_of(t).contains_key(x) implies map_of(
        s,
    ).remove(k).contains_key(x) by {
        let a = choose|a: int| 0 <= a < t.len() && (#[trigger] t[a]).0 == x;
        if a == i {
            assert(s[s.len() - 1].0 == x);
            assert(x != k);
        } else {
            assert(s[a].0 == x);
            assert(x != k);
        }
    }
    assert forall|x: FlowKey| #[trigger] map_of(s).remove(k).contains_key(x) implies map_of(
        t,
    ).contains_key(x) by {
        let a = choose|a: int| 0 <= a < s.len() && (#[trigger] s[a]).0 == x;
        if a == s.len() - 1 {
            if i < s.len() - 1 {
                assert(t[i].0 == x);
            }
        } else if a == i {
            assert(x == k);
        } else {
            assert(t[a].0 == x);
        }
    }
    assert forall|x: FlowKey| #[trigger] map_of(t).contains_key(x) implies map_of(t)[x] == map_of(
        s,
    ).remove(k)[x] by {
        let a = choose|a: int| 0 <= a < t.len() && (#[trigger] t[a]).0 == x;
        lemma_map_of_index(t, a);
        if a == i {
            lemma_map_of_index(s, s.len() - 1);
            assert(s[s.len() - 1] == t[a]);
        } else {
            lemma_map_of_index(s, a);
        }
    }
    assert(map_of(t) =~= map_of(s).remove(k));
}

/// What dispatching one segment asks of the caller.
#[derive(Clone, Copy, Debug, PartialEq, Eq, Structural)]
pub struct DispatchOutcome {
    /// A reply segment to serialise and send, if any.
    pub reply: Option<SegmentOut>,
    /// Whether the segment's payload is handed to the application sink.
    pub deliver: bool,
}

/// The table of live connections, keyed by flow identity.
pub struct ConnectionTable {
    entries: Vec<(FlowKey, Connection)>,
}

impl View for ConnectionTable {
    type V = Map<FlowKey, Connection>;

    closed spec fn view(&self) -> Map<FlowKey, Connection> {
        map_of(self.entries@)
    }
}

impl ConnectionTable {
    /// Every key is held at most once, and every held connection is
    /// well-formed and live (a closed connection leaves the table at
    /// once; a listening flow is one absent from it).
    pub closed spec fn wf(self) -> bool {
        &&& unique_keys(self.entries@)
        &&& forall|i: int|
            0 <= i < self.entries@.len() ==> ((#[trigger] self.entries@[i]).1.wf()
                && !(self.entries@[i].1.state is Listen) && !(self.entries@[i].1.state is Closed))
    }

    /// An empty table: every flow is listening.
    pub fn new() -> (t: Self)
        ensures
            t.wf(),
            t@ == Map::<FlowKey, Connection>::empty(),
    {
        ConnectionTable { entries: Vec::new() }
    }

    /// The index of the entry for `k`, if one exists.
    fn find(&self, k: FlowKey) -> (r: Option<usize>)
        ensures
            r is Some ==> 0 <= r->Some_0 < self.entries@.len() && (self.entries@[
                r->Some_0 as int]).0 == k,
            r is None ==> !has_key(self.entries@, k),
    {
        let n = self.entries.len();
        let mut i: usize = 0;
        while i < n
            invariant
                n == self.entries@.len(),
                0 <= i <= n,
                forall|j: int| 0 <= j < i ==> (#[trigger] self.entries@[j]).0 != k,
            decreases n - i,
        {
            if self.entries[i].0 == k {
                return Some(i);
            }
            i = i + 1;
        }
        None
    }

    /// Look up the connection for `k`.
    pub fn get(&self, k: FlowKey) -> (r: Option<Connection>)
        requires
            self.wf(),
        ensures
            r == if self@.contains_key(k) {
                Some(self@[k])
            } else {
                None::<Connection>
            },
    {
        proof {
            lemma_map_of_domain(self.entries@);
        }
        match self.find(k) {
            Some(i) => {
                proof {
                    lemma_map_of_index(self.entries@, i as int);
                }
                Some(self.entries[i].1)
            },
            None => None,
        }
    }

    /// Route one inbound segment, already parsed, to its flow.
    ///
    /// A segment for a known key runs that connection's `on_packet` step,
    /// and the connection is updated, or removed when the step closes it.
    /// A segment for an unknown key is offered to `Connection::accept`:
    /// a valid SYN creates the connection and provokes the SYN+ACK, and
    /// anything else is dropped without a trace. Flows other than the
    /// segment's own are never touched.
    pub fn dispatch(&mut self, ip: &IpView, tcp: &TcpView, payload_len: usize, iss: u32) -> (r:
        DispatchOutcome)
        requires
            old(self).wf(),
            payload_len <= 0xffff,
        ensures
            final(self).wf(),
            ({
                let k = flow_key_of(*ip, *tcp);
                if old(self)@.contains_key(k) {
                    let st = step(old(self)@[k], *ip, *tcp, payload_len as int);
                    &&& final(self)@ == if st.outcome.closed {
                        old(self)@.remove(k)
                    } else {
                        old(self)@.insert(k, st.next)
                    }
                    &&& r.reply == st.outcome.reply
                    &&& r.deliver == st.outcome.deliver
                } else if tcp.syn && !tcp.ack {
                    &&& final(self)@ == old(self)@.insert(k, accepted_connection(*tcp, iss))
                    &&& r.reply == Some(syn_ack_reply(*ip, *tcp, iss))
                    &&& r.deliver == false
                } else {
                    &&& final(self)@ == old(self)@
                    &&& r.reply is None
                    &&& r.deliver == false
                }
            }),
            forall|k2: FlowKey|
                k2 != flow_key_of(*ip, *tcp) && old(self)@.contains_key(k2) ==> final(self)@.contains_key(k2) && final(self)@[k2] == old(self)@[k2],
    {
        let key = FlowKey {
            src_addr: ip.src,
            src_port: tcp.src_port,
            dst_addr: ip.dst,
            dst_port: tcp.dst_port,
        };
        proof {
            lemma_map_of_domain(self.entries@);
        }
        match self.find(key) {
            Some(i) => {
                proof {
                    lemma_map_of_index(self.entries@, i as int);
                }
                let pair = self.entries[i];
                let mut conn = pair.1;
                let outcome = conn.on_packet(ip, tcp, payload_len);
                if outcome.closed {
                    proof {
                        lemma_map_of_swap_remove(self.entries@, i as int);
                    }
                    let ghost pre = self.entries@;
                    self.entries.swap_remove(i);
                    assert forall|j: int| 0 <= j < self.entries@.len() implies ((
                    #[trigger] self.entries@[j]).1.wf() && !(self.entries@[j].1.state is Listen)
                        && !(self.entries@[j].1.state is Closed)) by {
                        assert(self.entries@[j] == if j == i {
                            pre.last()
                        } else {
                            pre[j]
                        });
                    }
                } else {
                    let ghost pre = self.entries@;
                    self.entries[i] = (key, conn);
                    proof {
                        lemma_map_of_update(pre, i as int, conn);
                        assert forall|a: int, b: int|
                            0 <= a < b < self.entries@.len() implies (#[trigger] self.entries@[a]).0
                            != (#[trigger] self.entries@[b]).0 by {
                            assert(self.entries@[a].0 == pre[a].0);
                            assert(self.entries@[b].0 == pre[b].0);
                        }
                    }
                }
                DispatchOutcome { reply: outcome.reply, deliver: outcome.deliver }
            },
            None => {
                match Connection::accept(ip, tcp, iss) {
                    Some((c, seg)) => {
                        let ghost pre = self.entries@;
                        self.entries.push((key, c));
                        proof {
                            lemma_map_of_push(pre, key, c);
                            assert forall|a: int, b: int|
                                0 <= a < b < self.entries@.len() implies (
                            #[trigger] self.entries@[a]).0 != (#[trigger] self.entries@[b]).0 by {
                                if b == pre.len() {
                                    assert(self.entries@[a] == pre[a]);
                                    assert(pre[a].0 != key);
                                } else {
                                    assert(self.entries@[a] == pre[a]);
                                    assert(self.entries@[b] == pre[b]);
                                }
                            }
                        }
                        DispatchOutcome { reply: Some(seg), deliver: false }
                    },
                    None => DispatchOutcome { reply: None, deliver: false },
                }
            },
        }
    }
}

} // verus!
