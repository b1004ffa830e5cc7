//! Forwarding engine: routes tunneled frames through classification, the
//! DMZ policy and the flow table, applies the NAT rewrites in both
//! directions, and keeps the flow table consistent with the live sessions
//! of the registry (no flow-table entry ever outlives its owning session).

use vstd::prelude::*;
use crate::flow::{
    entry_of, expired, has_key, port_allowed, FlowEntry, FlowKey, FlowTable, TcpState,
};
use crate::packet::{
    classify, dst_addr_of, dst_port_of, frame_valid, is_ipv6, protocol_of, src_addr_of,
    src_port_of, transport_of, ClassifyError, Transport,
};
use crate::registry::{has_session, SessionRegistry};
use crate::rewrite::{
    header_ck_ok, translate_dest, translate_source, transport_ck_ok, with_dst_port, with_src_port,
};

verus! {

/// The 5-tuple a valid TCP/UDP frame maps to.
pub open spec fn flow_key_of(b: Seq<u8>) -> FlowKey {
    FlowKey {
        protocol: protocol_of(b),
        src_addr: src_addr_of(b),
        src_port: src_port_of(b),
        dst_addr: dst_addr_of(b),
        dst_port: dst_port_of(b),
    }
}

/// Why an inbound tunnel frame was not forwarded.
#[derive(Clone, Copy, PartialEq, Eq, Structural, Debug)]
pub enum DropReason {
    /// Unparseable frame: dropped, the connection continues.
    Malformed,
    /// A valid IPv4 frame of a protocol without ports; no flow to map to.
    UnsupportedProtocol,
    /// The claimed owning session is not live.
    UnknownSession,
    /// The DMZ allow-list rejects the destination port.
    PolicyDenied,
    /// The flow table sheds the new flow; existing flows are unaffected.
    TableFull,
}

/// The engine's decision on one inbound tunnel frame.
#[derive(Debug)]
pub enum ForwardDecision {
    /// The translated frame to write to the local network sink.
    Forward(Vec<u8>),
    /// IPv6: accepted but skipped silently.
    Unsupported,
    /// Dropped for the given reason; the session continues.
    Drop(DropReason),
}

/// The tunnel core: the flow table and the session registry, kept
/// consistent together.
pub struct TunnelEngine {
    pub table: FlowTable,
    pub registry: SessionRegistry,
}

impl TunnelEngine {
    /// Both parts are well-formed and every flow-table entry is owned by a
    /// live session (no orphaned flows).
    pub open spec fn wf(self) -> bool {
        &&& self.table.wf()
        &&& self.registry.wf()
        &&& forall|j: int|
            0 <= j < self.table.entries@.len() ==> has_session(
                self.registry.sessions@,
                (#[trigger] self.table.entries@[j]).1.session_id,
            )
    }

    /// A fresh engine for a server whose local interface address is
    /// `local_addr`, with the DMZ allow-list and flow capacity given.
    pub fn new(local_addr: u32, allowed_ports: Vec<u16>, capacity: usize) -> (r: TunnelEngine)
        ensures
            r.wf(),
            r.table.entries@.len() == 0,
            r.table.allowed_ports@ == allowed_ports@,
            r.table.capacity == capacity,
            r.table.local_addr == local_addr,
            r.registry.sessions@.len() == 0,
    {
        TunnelEngine { table: FlowTable::new(local_addr, allowed_ports, capacity), registry: SessionRegistry::new() }
    }

    /// Admits a new session; `None` only when the id space is exhausted.
    pub fn open_session(&mut self, peer: String, ip: u32, mask: u32) -> (r: Option<u64>)
        requires
            old(self).wf(),
        ensures
            final(self).wf(),
            final(self).table == old(self).table,
            old(self).registry.next_id < u64::MAX ==> {
                &&& r == Some(old(self).registry.next_id)
                &&& has_session(final(self).registry.sessions@, old(self).registry.next_id)
                &&& final(self).registry.sessions@.len() == old(self).registry.sessions@.len() + 1
                &&& forall|i: int|
                    0 <= i < old(self).registry.sessions@.len() ==> final(self).registry.sessions@[i] == old(self).registry.sessions@[i]
                &&& final(self).registry.sessions@.last().id == old(self).registry.next_id
                &&& final(self).registry.sessions@.last().peer == peer
                &&& final(self).registry.sessions@.last().advertised_ip == ip
                &&& final(self).registry.sessions@.last().advertised_mask == mask
                &&& final(self).registry.sessions@.last().state
                    == crate::session::SessionState::Handshaking
                &&& final(self).registry.sessions@.last().flows@.len() == 0
            },
            old(self).registry.next_id == u64::MAX ==> r is None && final(self).registry.sessions@
                == old(self).registry.sessions@,
    {
        let r = self.registry.open_session(peer, ip, mask);
        proof {
            assert forall|j: int| 0 <= j < self.table.entries@.len() implies has_session(
                self.registry.sessions@,
                (#[trigger] self.table.entries@[j]).1.session_id,
            ) by {
                let sid = self.table.entries@[j].1.session_id;
                let i = choose|i: int|
                    0 <= i < old(self).registry.sessions@.len() && old(self).registry.sessions@[i].id == sid;
                assert(self.registry.sessions@[i].id == sid);
            }
        }
        r
    }

    /// Records the state the session's connection pump has reached.
    pub fn set_session_state(&mut self, session_id: u64, st: crate::session::SessionState) -> (found:
        bool)
        requires
            old(self).wf(),
        ensures
            final(self).wf(),
            final(self).table == old(self).table,
            final(self).registry.next_id == old(self).registry.next_id,
            final(self).registry.sessions@.len() == old(self).registry.sessions@.len(),
            found == has_session(old(self).registry.sessions@, session_id),
            forall|i: int|
                0 <= i < old(self).registry.sessions@.len() ==> (#[trigger] final(self).registry.sessions@[i]).id == old(self).registry.sessions@[i].id && (if old(self).registry.sessions@[i].id == session_id {
                    final(self).registry.sessions@[i].state == st
                } else {
                    final(self).registry.sessions@[i] == old(self).registry.sessions@[i]
                }),
    {
        let found = self.registry.set_state(session_id, st);
        proof {
            assert forall|j: int| 0 <= j < self.table.entries@.len() implies has_session(
                self.registry.sessions@,
                (#[trigger] self.table.entries@[j]).1.session_id,
            ) by {
                let sid = self.table.entries@[j].1.session_id;
                let i = choose|i: int|
                    0 <= i < old(self).registry.sessions@.len() && old(self).registry.sessions@[i].id == sid;
                assert(self.registry.sessions@[i].id == sid);
            }
        }
        found
    }

    /// Tears a session down: it disappears from the registry and every
    /// flow it owned disappears from the table, atomically from the
    /// caller's point of view. Returns the removed flows so their bound
    /// resources can be released.
    pub fn close_session(&mut self, session_id: u64) -> (removed: Vec<(FlowKey, FlowEntry)>)
        requires
            old(self).wf(),
        ensures
            final(self).wf(),
            !has_session(final(self).registry.sessions@, session_id),
            forall|j: int|
                0 <= j < old(self).registry.sessions@.len() && (#[trigger] old(self).registry.sessions@[j]).id != session_id ==> has_session(
                    final(self).registry.sessions@,
                    old(self).registry.sessions@[j].id,
                ),
            forall|m: int|
                0 <= m < final(self).table.entries@.len() ==> (#[trigger] final(self).table.entries@[m]).1.session_id != session_id,
            forall|j: int|
                0 <= j < old(self).table.entries@.len() && (#[trigger] old(self).table.entries@[j]).1.session_id != session_id ==> has_key(
                    final(self).table.entries@,
                    old(self).table.entries@[j].0,
                ) && entry_of(final(self).table.entries@, old(self).table.entries@[j].0) == old(self).table.entries@[j].1,
            forall|j: int|
                0 <= j < old(self).table.entries@.len() && (#[trigger] old(self).table.entries@[j]).1.session_id == session_id ==> !has_key(
                    final(self).table.entries@,
                    old(self).table.entries@[j].0,
                ) && removed@.contains(old(self).table.entries@[j]),
            final(self).table.entries@.len() + removed@.len() == old(self).table.entries@.len(),
    {
        self.registry.close_session(session_id);
        let removed = self.table.remove_session(session_id);
        proof {
            assert forall|j: int| 0 <= j < self.table.entries@.len() implies has_session(
                self.registry.sessions@,
                (#[trigger] self.table.entries@[j]).1.session_id,
            ) by {
                let e = self.table.entries@[j];
                let oj = choose|oj: int|
                    0 <= oj < old(self).table.entries@.len() && old(self).table.entries@[oj] == e
                        && old(self).table.entries@[oj].1.session_id != session_id;
                assert(old(self).table.entries@[oj] == e);
                let i = choose|i: int|
                    0 <= i < old(self).registry.sessions@.len() && old(self).registry.sessions@[i].id == e.1.session_id;
                assert(old(self).registry.sessions@[i].id != session_id);
                assert(has_session(self.registry.sessions@, e.1.session_id));
            }
        }
        removed
    }

    /// Runs the periodic sweep: every flow idle beyond `threshold`, and
    /// every flow already observed closing/closed, leaves the table; all
    /// other flows survive untouched.
    pub fn sweep(&mut self, now: u64, threshold: u64) -> (removed: Vec<(FlowKey, FlowEntry)>)
        requires
            old(self).wf(),
        ensures
            final(self).wf(),
            final(self).registry == old(self).registry,
            forall|j: int|
                0 <= j < old(self).table.entries@.len() && expired(
                    (#[trigger] old(self).table.entries@[j]).1,
                    now,
                    threshold,
                ) ==> !has_key(final(self).table.entries@, old(self).table.entries@[j].0),
            forall|j: int|
                0 <= j < old(self).table.entries@.len() && !expired(
                    (#[trigger] old(self).table.entries@[j]).1,
                    now,
                    threshold,
                ) ==> has_key(final(self).table.entries@, old(self).table.entries@[j].0)
                    && entry_of(final(self).table.entries@, old(self).table.entries@[j].0) == old(self).table.entries@[j].1,
            final(self).table.entries@.len() + removed@.len() == old(self).table.entries@.len(),
    {
        let removed = self.table.evict_idle(now, threshold);
        proof {
            assert forall|j: int| 0 <= j < self.table.entries@.len() implies has_session(
                self.registry.sessions@,
                (#[trigger] self.table.entries@[j]).1.session_id,
            ) by {
                let e = self.table.entries@[j];
                let oj = choose|oj: int|
                    0 <= oj < old(self).table.entries@.len() && old(self).table.entries@[oj] == e;
                assert(old(self).table.entries@[oj] == e);
            }
        }
        removed
    }

    /// Outbound pipeline for one tunneled frame from session `session_id`:
    /// classify, apply the DMZ policy, look the flow up (or create it),
    /// record activity and TCP state, and hand back the source-translated
    /// frame for the local network sink. Every failure is a local decision:
    /// the session always survives.
    pub fn forward_to_network(&mut self, session_id: u64, frame: &[u8], now: u64) -> (r:
        ForwardDecision)
        requires
            old(self).wf(),
        ensures
            final(self).wf(),
            final(self).registry.next_id == old(self).registry.next_id,
            old(self).table.same_config(final(self).table),
            r is Unsupported <==> has_session(old(self).registry.sessions@, session_id) && is_ipv6(
                frame@,
            ),
            r == ForwardDecision::Drop(DropReason::UnknownSession) <==> !has_session(
                old(self).registry.sessions@,
                session_id,
            ),
            r == ForwardDecision::Drop(DropReason::Malformed) <==> has_session(
                old(self).registry.sessions@,
                session_id,
            ) && !is_ipv6(frame@) && !frame_valid(frame@),
            r == ForwardDecision::Drop(DropReason::UnsupportedProtocol) <==> has_session(
                old(self).registry.sessions@,
                session_id,
            ) && frame_valid(frame@) && protocol_of(frame@) is Other,
            r == ForwardDecision::Drop(DropReason::PolicyDenied) <==> has_session(
                old(self).registry.sessions@,
                session_id,
            ) && frame_valid(frame@) && !(protocol_of(frame@) is Other) && !has_key(
                old(self).table.entries@,
                flow_key_of(frame@),
            ) && !port_allowed(old(self).table.allowed_ports@, dst_port_of(frame@)),
            r == ForwardDecision::Drop(DropReason::TableFull) <==> has_session(
                old(self).registry.sessions@,
                session_id,
            ) && frame_valid(frame@) && !(protocol_of(frame@) is Other) && !has_key(
                old(self).table.entries@,
                flow_key_of(frame@),
            ) && port_allowed(old(self).table.allowed_ports@, dst_port_of(frame@)) && (old(self).table.entries@.len() == old(self).table.capacity || old(self).table.next_port
                == 0xffff),
            !(r is Forward) ==> final(self).table.entries@ == old(self).table.entries@ && final(self).registry.sessions@ == old(self).registry.sessions@,
            r is Forward ==> {
                let key = flow_key_of(frame@);
                let e = entry_of(final(self).table.entries@, key);
                let out = r->Forward_0;
                &&& has_session(old(self).registry.sessions@, session_id)
                &&& frame_valid(frame@)
                &&& !(protocol_of(frame@) is Other)
                &&& has_key(final(self).table.entries@, key)
                &&& e.last_activity == now
                &&& e.translated_addr == old(self).table.local_addr
                &&& (has_key(old(self).table.entries@, key) ==> e.session_id == entry_of(
                    old(self).table.entries@,
                    key,
                ).session_id && final(self).table.entries@.len() == old(self).table.entries@.len())
                &&& (!has_key(old(self).table.entries@, key) ==> e.session_id == session_id
                    && final(self).table.entries@.len() == old(self).table.entries@.len() + 1)
                &&& out@.len() == frame@.len()
                &&& frame_valid(out@)
                &&& protocol_of(out@) == protocol_of(frame@)
                &&& src_addr_of(out@) == e.translated_addr
                &&& src_port_of(out@) == e.translated_port
                &&& dst_addr_of(out@) == dst_addr_of(frame@)
                &&& dst_port_of(out@) == dst_port_of(frame@)
                &&& transport_of(out@) == with_src_port(transport_of(frame@), e.translated_port)
                &&& header_ck_ok(out@)
                &&& transport_ck_ok(out@)
                &&& (transport_of(frame@) matches Transport::Tcp { rst: true, .. }
                    ==> e.tcp_state == TcpState::Closed)
                &&& (transport_of(frame@) matches Transport::Tcp { rst: false, fin: true, .. }
                    ==> e.tcp_state == TcpState::Closing)
            },
            r is Forward <==> has_session(old(self).registry.sessions@, session_id) && frame_valid(
                frame@,
            ) && !(protocol_of(frame@) is Other) && (has_key(
                old(self).table.entries@,
                flow_key_of(frame@),
            ) || (port_allowed(old(self).table.allowed_ports@, dst_port_of(frame@)) && old(self).table.entries@.len() < old(self).table.capacity && old(self).table.next_port
                < 0xffff)),
    {
        if !self.registry.contains(session_id) {
            return ForwardDecision::Drop(DropReason::UnknownSession);
        }
        let parsed = match classify(frame) {
            Err(ClassifyError::Unsupported) => {
                return ForwardDecision::Unsupported;
            },
            Err(ClassifyError::Malformed) => {
                return ForwardDecision::Drop(DropReason::Malformed);
            },
            Ok(p) => p,
        };
        let src_port: u16;
        let dst_port: u16;
        let mut fin: bool = false;
        let mut syn: bool = false;
        let mut rst: bool = false;
        let mut is_tcp: bool = false;
        match parsed.transport {
            Transport::Tcp { src_port: sp, dst_port: dp, fin: f, syn: s, rst: rr, .. } => {
                src_port = sp;
                dst_port = dp;
                fin = f;
                syn = s;
                rst = rr;
                is_tcp = true;
            },
            Transport::Udp { src_port: sp, dst_port: dp } => {
                src_port = sp;
                dst_port = dp;
            },
            Transport::Opaque => {
                return ForwardDecision::Drop(DropReason::UnsupportedProtocol);
            },
        }
        let key = FlowKey {
            protocol: parsed.protocol,
            src_addr: parsed.src_addr,
            src_port,
            dst_addr: parsed.dst_addr,
            dst_port,
        };
        proof {
            assert(key == flow_key_of(frame@));
        }
        let len_before = self.table.entries.len();
        let entry = match self.table.lookup_or_create(key, session_id, now) {
            Err(crate::flow::FlowError::PolicyDenied) => {
                return ForwardDecision::Drop(DropReason::PolicyDenied);
            },
            Err(crate::flow::FlowError::TableFull) => {
                return ForwardDecision::Drop(DropReason::TableFull);
            },
            Ok(e) => e,
        };
        let ghost t1 = self.table.entries@;
        if self.table.entries.len() > len_before {
            self.registry.record_flow(session_id, key);
        }
        self.table.touch(key, now);
        let ghost t2 = self.table.entries@;
        proof {
            let j = choose|j: int| 0 <= j < t1.len() && t1[j].0 == key;
            crate::flow::lemma_entry_at(t1, key, j);
            assert(t2[j].0 == key);
            crate::flow::lemma_entry_at(t2, key, j);
        }
        if is_tcp {
            if rst {
                self.table.observe_close(key, true);
            } else if fin {
                self.table.observe_close(key, false);
            } else if !syn {
                self.table.mark_established(key);
            }
            proof {
                let j = choose|j: int| 0 <= j < t2.len() && t2[j].0 == key;
                crate::flow::lemma_entry_at(t2, key, j);
                assert(self.table.entries@[j].0 == key);
                crate::flow::lemma_entry_at(self.table.entries@, key, j);
            }
        }
        let out = translate_source(frame, entry.translated_addr, entry.translated_port);
        proof {
            assert forall|j: int| 0 <= j < self.table.entries@.len() implies has_session(
                self.registry.sessions@,
                (#[trigger] self.table.entries@[j]).1.session_id,
            ) by {
                if j < old(self).table.entries@.len() {
                    assert(t1[j] == old(self).table.entries@[j]);
                    assert(t2[j].1.session_id == t1[j].1.session_id);
                    assert(self.table.entries@[j].1.session_id == t2[j].1.session_id);
                } else {
                    assert(t1[j].1.session_id == session_id);
                    assert(t2[j].1.session_id == t1[j].1.session_id);
                    assert(self.table.entries@[j].1.session_id == t2[j].1.session_id);
                }
                let sid = self.table.entries@[j].1.session_id;
                let i = choose|i: int|
                    0 <= i < old(self).registry.sessions@.len() && old(self).registry.sessions@[i].id == sid;
                assert(self.registry.sessions@[i].id == sid);
            }
        }
        ForwardDecision::Forward(out)
    }

    /// Inbound pipeline for one raw frame read from the local network:
    /// classify, reverse-look the flow up by its translated identity,
    /// rewrite the destination back to the client's original source, and
    /// hand the frame to the owning session for transmission. Unsolicited
    /// or unparseable traffic yields `None` (dropped).
    pub fn forward_from_network(&mut self, frame: &[u8], now: u64) -> (r: Option<(u64, Vec<u8>)>)
        requires
            old(self).wf(),
        ensures
            final(self).wf(),
            final(self).registry == old(self).registry,
            old(self).table.same_config(final(self).table),
            final(self).table.entries@.len() == old(self).table.entries@.len(),
            r is None ==> final(self).table.entries@ == old(self).table.entries@,
            r is Some <==> frame_valid(frame@) && !(protocol_of(frame@) is Other) && (exists|j: int|
                0 <= j < old(self).table.entries@.len() && (#[trigger] old(self).table.entries@[j]).1.translated_addr == dst_addr_of(frame@) && old(self).table.entries@[j].1.translated_port == dst_port_of(frame@)),
            r is Some ==> (exists|j: int|
                {
                    let k = old(self).table.entries@[j].0;
                    let e = old(self).table.entries@[j].1;
                    let pair = r->0;
                    let out = pair.1;
                    &&& 0 <= j < old(self).table.entries@.len()
                    &&& e.translated_addr == dst_addr_of(frame@)
                    &&& (#[trigger] old(self).table.entries@[j]).1.translated_port == dst_port_of(
                        frame@,
                    )
                    &&& pair.0 == e.session_id
                    &&& entry_of(final(self).table.entries@, k).last_activity == now
                    &&& out@.len() == frame@.len()
                    &&& frame_valid(out@)
                    &&& protocol_of(out@) == protocol_of(frame@)
                    &&& src_addr_of(out@) == src_addr_of(frame@)
                    &&& src_port_of(out@) == src_port_of(frame@)
                    &&& dst_addr_of(out@) == k.src_addr
                    &&& dst_port_of(out@) == k.src_port
                    &&& transport_of(out@) == with_dst_port(transport_of(frame@), k.src_port)
                    &&& header_ck_ok(out@)
                    &&& transport_ck_ok(out@)
                }),
    {
        let parsed = match classify(frame) {
            Err(_) => {
                return None;
            },
            Ok(p) => p,
        };
        let dst_port: u16;
        match parsed.transport {
            Transport::Tcp { dst_port: dp, .. } => {
                dst_port = dp;
            },
            Transport::Udp { dst_port: dp, .. } => {
                dst_port = dp;
            },
            Transport::Opaque => {
                return None;
            },
        }
        match self.table.reverse_lookup(parsed.dst_addr, dst_port) {
            None => None,
            Some((k, e)) => {
                proof {
                    let j = choose|j: int|
                        0 <= j < self.table.entries@.len() && self.table.entries@[j].0 == k;
                    assert(self.table.entries@[j].1.translated_addr == dst_addr_of(frame@));
                }
                let ghost t0 = self.table.entries@;
                self.table.touch(k, now);
                let ghost t1 = self.table.entries@;
                proof {
                    let j = choose|j: int| 0 <= j < t0.len() && t0[j].0 == k;
                    crate::flow::lemma_entry_at(t0, k, j);
                    assert(t1[j].0 == k);
                    crate::flow::lemma_entry_at(t1, k, j);
                }
                match parsed.transport {
                    Transport::Tcp { fin, rst, .. } => {
                        if rst {
                            self.table.observe_close(k, true);
                        } else if fin {
                            self.table.observe_close(k, false);
                        }
                        proof {
                            let j = choose|j: int| 0 <= j < t1.len() && t1[j].0 == k;
                            crate::flow::lemma_entry_at(t1, k, j);
                            assert(self.table.entries@[j].0 == k);
                            crate::flow::lemma_entry_at(self.table.entries@, k, j);
                        }
                    },
                    _ => {},
                }
                proof {
                    assert forall|m: int| 0 <= m < self.table.entries@.len() implies has_session(
                        self.registry.sessions@,
                        (#[trigger] self.table.entries@[m]).1.session_id,
                    ) by {
                        assert(t1[m].1.session_id == old(self).table.entries@[m].1.session_id);
                        assert(self.table.entries@[m].1.session_id == t1[m].1.session_id);
                    }
                }
                let out = translate_dest(frame, k.src_addr, k.src_port);
                Some((e.session_id, out))
            },
        }
    }
}

} // verus!
