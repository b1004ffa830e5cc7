//! Session registry: tracks all live tunnel sessions server-wide, assigns
//! session ids, and is the single place teardown starts from.

use vstd::prelude::*;
use crate::flow::FlowKey;
use crate::session::SessionState;

verus! {

/// One transport connection: its id, peer address, the interface identity
/// advertised at handshake, its state, and the flow keys it has opened
/// (bookkeeping for diagnostics; teardown provably removes every owned
/// flow-table entry by owner id).
pub struct TunnelSession {
    pub id: u64,
    pub peer: String,
    pub advertised_ip: u32,
    pub advertised_mask: u32,
    pub state: SessionState,
    pub flows: Vec<FlowKey>,
}

pub open spec fn has_session(s: Seq<TunnelSession>, id: u64) -> bool {
    exists|i: int| 0 <= i < s.len() && s[i].id == id
}

pub open spec fn distinct_ids(s: Seq<TunnelSession>) -> bool {
    forall|i: int, j: int| 0 <= i < j < s.len() ==> (#[trigger] s[i]).id != (#[trigger] s[j]).id
}

pub struct SessionRegistry {
    pub sessions: Vec<TunnelSession>,
    pub next_id: u64,
}

impl SessionRegistry {
    /// Well-formedness: ids are unique and below the allocation cursor.
    pub open spec fn wf(self) -> bool {
        &&& distinct_ids(self.sessions@)
        &&& forall|i: int|
            0 <= i < self.sessions@.len() ==> (#[trigger] self.sessions@[i]).id < self.next_id
    }

    pub fn new() -> (r: SessionRegistry)
        ensures
            r.wf(),
            r.sessions@.len() == 0,
            r.next_id == 1,
    {
        SessionRegistry { sessions: Vec::new(), next_id: 1 }
    }

    /// Whether a session with this id is live.
    pub fn contains(&self, id: u64) -> (r: bool)
        ensures
            r == has_session(self.sessions@, id),
    {
        let mut i: usize = 0;
        while i < self.sessions.len()
            invariant
                i <= self.sessions@.len(),
                forall|j: int| 0 <= j < i ==> (#[trigger] self.sessions@[j]).id != id,
            decreases self.sessions@.len() - i,
        {
            if self.sessions[i].id == id {
                return true;
            }
            i = i + 1;
        }
        false
    }

    /// Admits a new session in the handshaking state and assigns it a fresh
    /// id; fails only when the id space is exhausted.
    pub fn open_session(&mut self, peer: String, ip: u32, mask: u32) -> (r: Option<u64>)
        requires
            old(self).wf(),
        ensures
            final(self).wf(),
            old(self).next_id == u64::MAX ==> r is None && final(self).sessions@ == old(
                self,
            ).sessions@ && final(self).next_id == old(self).next_id,
            old(self).next_id < u64::MAX ==> {
                &&& r == Some(old(self).next_id)
                &&& final(self).next_id == old(self).next_id + 1
                &&& final(self).sessions@.len() == old(self).sessions@.len() + 1
                &&& forall|i: int|
                    0 <= i < old(self).sessions@.len() ==> final(self).sessions@[i] == old(
                        self,
                    ).sessions@[i]
                &&& final(self).sessions@.last().id == old(self).next_id
                &&& final(self).sessions@.last().peer == peer
                &&& final(self).sessions@.last().advertised_ip == ip
                &&& final(self).sessions@.last().advertised_mask == mask
                &&& final(self).sessions@.last().state == SessionState::Handshaking
                &&& final(self).sessions@.last().flows@.len() == 0
                &&& has_session(final(self).sessions@, old(self).next_id)
            },
    {
        if self.next_id == u64::MAX {
            return None;
        }
        let id = self.next_id;
        self.sessions.push(
            TunnelSession {
                id,
                peer,
                advertised_ip: ip,
                advertised_mask: mask,
                state: SessionState::Handshaking,
                flows: Vec::new(),
            },
        );
        self.next_id = self.next_id + 1;
        proof {
            let s = self.sessions@;
            assert(s[s.len() - 1].id == id);
        }
        Some(id)
    }

    /// Replaces the recorded state of a live session.
    pub fn set_state(&mut self, id: u64, st: SessionState) -> (found: bool)
        requires
            old(self).wf(),
        ensures
            final(self).wf(),
            final(self).next_id == old(self).next_id,
            final(self).sessions@.len() == old(self).sessions@.len(),
            found == has_session(old(self).sessions@, id),
            forall|i: int|
                0 <= i < old(self).sessions@.len() ==> (#[trigger] final(self).sessions@[i]).id
                    == old(self).sessions@[i].id && (if old(self).sessions@[i].id == id {
                    final(self).sessions@[i].state == st
                } else {
                    final(self).sessions@[i] == old(self).sessions@[i]
                }),
    {
        let mut i: usize = 0;
        while i < self.sessions.len()
            invariant
                old(self).wf(),
                self.sessions@ == old(self).sessions@,
                self.next_id == old(self).next_id,
                i <= self.sessions@.len(),
                forall|j: int| 0 <= j < i ==> (#[trigger] self.sessions@[j]).id != id,
            decreases self.sessions@.len() - i,
        {
            if self.sessions[i].id == id {
                let ghost pre = self.sessions@;
                let sess = &mut self.sessions[i];
                sess.state = st;
                proof {
                    assert(forall|j: int|
                        0 <= j < pre.len() && j != i ==> self.sessions@[j] == pre[j]);
                    assert(forall|j: int|
                        0 <= j < pre.len() && j != i ==> (#[trigger] pre[j]).id != id);
                }
                return true;
            }
            i = i + 1;
        }
        false
    }

    /// Records that a live session opened a flow.
    pub fn record_flow(&mut self, id: u64, key: FlowKey) -> (found: bool)
        requires
            old(self).wf(),
        ensures
            final(self).wf(),
            final(self).next_id == old(self).next_id,
            final(self).sessions@.len() == old(self).sessions@.len(),
            found == has_session(old(self).sessions@, id),
            forall|i: int|
                0 <= i < old(self).sessions@.len() ==> (#[trigger] final(self).sessions@[i]).id
                    == old(self).sessions@[i].id,
    {
        let mut i: usize = 0;
        while i < self.sessions.len()
            invariant
                old(self).wf(),
                self.sessions@ == old(self).sessions@,
                self.next_id == old(self).next_id,
                i <= self.sessions@.len(),
                forall|j: int| 0 <= j < i ==> (#[trigger] self.sessions@[j]).id != id,
            decreases self.sessions@.len() - i,
        {
            if self.sessions[i].id == id {
                let ghost pre = self.sessions@;
                let sess = &mut self.sessions[i];
                sess.flows.push(key);
                proof {
                    assert(forall|j: int|
                        0 <= j < pre.len() && j != i ==> self.sessions@[j] == pre[j]);
                    assert(self.sessions@[i as int].id == pre[i as int].id);
                }
                return true;
            }
            i = i + 1;
        }
        false
    }

    /// The ids of all live sessions, in admission order (diagnostics).
    pub fn session_ids(&self) -> (r: Vec<u64>)
        ensures
            r@.len() == self.sessions@.len(),
            forall|i: int|
                0 <= i < self.sessions@.len() ==> r@[i] == (#[trigger] self.sessions@[i]).id,
    {
        let mut ids: Vec<u64> = Vec::new();
        let mut i: usize = 0;
        while i < self.sessions.len()
            invariant
                i <= self.sessions@.len(),
                ids@.len() == i,
                forall|j: int| 0 <= j < i ==> ids@[j] == (#[trigger] self.sessions@[j]).id,
            decreases self.sessions@.len() - i,
        {
            ids.push(self.sessions[i].id);
            i = i + 1;
        }
        ids
    }

    /// Removes a session from the registry (the caller cascades flow-table
    /// teardown); every other session is untouched.
    pub fn close_session(&mut self, id: u64) -> (found: bool)
        requires
            old(self).wf(),
        ensures
            final(self).wf(),
            final(self).next_id == old(self).next_id,
            found == has_session(old(self).sessions@, id),
            !has_session(final(self).sessions@, id),
            forall|j: int|
                0 <= j < old(self).sessions@.len() && (#[trigger] old(self).sessions@[j]).id != id
                    ==> has_session(final(self).sessions@, old(self).sessions@[j].id),
            forall|m: int|
                0 <= m < final(self).sessions@.len() ==> (#[trigger] final(self).sessions@[m]).id
                    != id && old(self).sessions@.contains(final(self).sessions@[m]),
    {
        let mut i: usize = 0;
        while i < self.sessions.len()
            invariant
                old(self).wf(),
                self.sessions@ == old(self).sessions@,
                self.next_id == old(self).next_id,
                i <= self.sessions@.len(),
                forall|j: int| 0 <= j < i ==> (#[trigger] self.sessions@[j]).id != id,
            decreases self.sessions@.len() - i,
        {
            if self.sessions[i].id == id {
                let ghost pre = self.sessions@;
                self.sessions.remove(i);
                proof {
                    let f = self.sessions@;
                    assert(f == pre.remove(i as int));
                    assert(forall|m: int| 0 <= m < i ==> f[m] == pre[m]);
                    assert(forall|m: int| i <= m < f.len() ==> f[m] == pre[m + 1]);
                    assert forall|m: int| 0 <= m < f.len() implies (#[trigger] f[m]).id != id
                        && pre.contains(f[m]) by {
                        if m < i {
                            assert(f[m] == pre[m]);
                        } else {
                            assert(f[m] == pre[m + 1]);
                            assert(pre[i as int].id == id);
                        }
                    }
                    assert forall|j: int|
                        0 <= j < pre.len() && (#[trigger] pre[j]).id != id implies has_session(
                        f,
                        pre[j].id,
                    ) by {
                        if j < i {
                            assert(f[j] == pre[j]);
                        } else {
                            assert(j > i);
                            assert(f[j - 1] == pre[j]);
                        }
                    }
                }
                return true;
            }
            i = i + 1;
        }
        false
    }
}

} // verus!
