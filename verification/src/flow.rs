//! Flow table: per-session mapping from a client-observed 5-tuple to a
//! server-side translated identity, with DMZ port policy, liveness
//! timestamps, coarse TCP state, idle eviction and session teardown.

use vstd::prelude::*;
use crate::packet::Protocol;

verus! {

/// The client-observed 5-tuple identifying one flow.
#[derive(Clone, Copy, PartialEq, Eq, Structural, Debug)]
pub struct FlowKey {
    pub protocol: Protocol,
    pub src_addr: u32,
    pub src_port: u16,
    pub dst_addr: u32,
    pub dst_port: u16,
}

/// Coarse TCP state inferred from observed SYN/FIN/RST flags.
#[derive(Clone, Copy, PartialEq, Eq, Structural, Debug)]
pub enum TcpState {
    New,
    Established,
    Closing,
    Closed,
}

/// Per-flow state: owning session, translated identity for the real
/// network leg, last activity, and coarse TCP state.
#[derive(Clone, Copy, PartialEq, Eq, Structural, Debug)]
pub struct FlowEntry {
    pub session_id: u64,
    pub translated_addr: u32,
    pub translated_port: u16,
    pub last_activity: u64,
    pub tcp_state: TcpState,
}

#[derive(Clone, Copy, PartialEq, Eq, Structural, Debug)]
pub enum FlowError {
    /// The destination port is outside the configured allow-list.
    PolicyDenied,
    /// Capacity exceeded: the new flow is shed, existing flows unaffected.
    TableFull,
}

/// Lowest port used for translated identities.
pub const FIRST_TRANSLATED_PORT: u16 = 49152;

pub open spec fn has_key(s: Seq<(FlowKey, FlowEntry)>, k: FlowKey) -> bool {
    exists|i: int| 0 <= i < s.len() && s[i].0 == k
}

pub open spec fn entry_of(s: Seq<(FlowKey, FlowEntry)>, k: FlowKey) -> FlowEntry {
    s[choose|i: int| 0 <= i < s.len() && s[i].0 == k].1
}

pub open spec fn distinct_keys(s: Seq<(FlowKey, FlowEntry)>) -> bool {
    forall|i: int, j: int| 0 <= i < j < s.len() ==> (#[trigger] s[i]).0 != (#[trigger] s[j]).0
}

/// With distinct keys, the entry found for `k` is the one at any index
/// whose key is `k`.
pub proof fn lemma_entry_at(s: Seq<(FlowKey, FlowEntry)>, k: FlowKey, i: int)
    requires
        distinct_keys(s),
        0 <= i < s.len(),
        s[i].0 == k,
    ensures
        has_key(s, k),
        entry_of(s, k) == s[i].1,
{
    let j = choose|j: int| 0 <= j < s.len() && s[j].0 == k;
    if j != i {
        assert(s[i].0 != s[j].0);
    }
}

/// The DMZ policy: an empty allow-list permits every destination port,
/// otherwise only the listed ones.
pub open spec fn port_allowed(allowed: Seq<u16>, p: u16) -> bool {
    allowed.len() == 0 || allowed.contains(p)
}

/// A flow is due for removal in a sweep at `now`: idle beyond `threshold`,
/// or already observed closing/closed.
pub open spec fn expired(e: FlowEntry, now: u64, threshold: u64) -> bool {
    ||| e.last_activity + threshold < now
    ||| e.tcp_state == TcpState::Closing
    ||| e.tcp_state == TcpState::Closed
}

pub struct FlowTable {
    pub entries: Vec<(FlowKey, FlowEntry)>,
    pub allowed_ports: Vec<u16>,
    pub capacity: usize,
    pub local_addr: u32,
    pub next_port: u16,
}

impl FlowTable {
    /// Well-formedness: keys and translated ports are unique, every entry
    /// carries the table's local address and a port below the allocation
    /// cursor, capacity is respected, and every entry passed the policy.
    pub open spec fn wf(self) -> bool {
        &&& distinct_keys(self.entries@)
        &&& self.entries@.len() <= self.capacity
        &&& self.next_port >= FIRST_TRANSLATED_PORT
        &&& forall|i: int|
            0 <= i < self.entries@.len() ==> (#[trigger] self.entries@[i]).1.translated_addr
                == self.local_addr
        &&& forall|i: int|
            0 <= i < self.entries@.len() ==> (#[trigger] self.entries@[i]).1.translated_port
                < self.next_port
        &&& forall|i: int, j: int|
            0 <= i < j < self.entries@.len() ==> (#[trigger] self.entries@[i]).1.translated_port
                != (#[trigger] self.entries@[j]).1.translated_port
        &&& forall|i: int|
            0 <= i < self.entries@.len() ==> port_allowed(
                self.allowed_ports@,
                (#[trigger] self.entries@[i]).0.dst_port,
            )
    }

    /// The configuration that stays fixed over the table's lifetime.
    pub open spec fn same_config(self, other: FlowTable) -> bool {
        &&& self.allowed_ports@ == other.allowed_ports@
        &&& self.capacity == other.capacity
        &&& self.local_addr == other.local_addr
    }

    /// An empty table for the given local (translated) address, DMZ
    /// allow-list (empty list: allow all) and capacity.
    pub fn new(local_addr: u32, allowed_ports: Vec<u16>, capacity: usize) -> (t: FlowTable)
        ensures
            t.wf(),
            t.entries@.len() == 0,
            t.allowed_ports@ == allowed_ports@,
            t.capacity == capacity,
            t.local_addr == local_addr,
    {
        FlowTable {
            entries: Vec::new(),
            allowed_ports,
            capacity,
            local_addr,
            next_port: FIRST_TRANSLATED_PORT,
        }
    }

    fn find_index(&self, key: FlowKey) -> (r: Option<usize>)
        ensures
            match r {
                Some(i) => i < self.entries@.len() && self.entries@[i as int].0 == key,
                None => !has_key(self.entries@, key),
            },
    {
        let mut i: usize = 0;
        while i < self.entries.len()
            invariant
                i <= self.entries@.len(),
                forall|j: int| 0 <= j < i ==> (#[trigger] self.entries@[j]).0 != key,
            decreases self.entries@.len() - i,
        {
            if self.entries[i].0 == key {
                return Some(i);
            }
            i = i + 1;
        }
        None
    }

    /// Whether the DMZ policy permits a destination port.
    pub fn port_permitted(&self, p: u16) -> (r: bool)
        ensures
            r == port_allowed(self.allowed_ports@, p),
    {
        if self.allowed_ports.len() == 0 {
            return true;
        }
        let mut i: usize = 0;
        while i < self.allowed_ports.len()
            invariant
                i <= self.allowed_ports@.len(),
                forall|j: int| 0 <= j < i ==> self.allowed_ports@[j] != p,
            decreases self.allowed_ports@.len() - i,
        {
            if self.allowed_ports[i] == p {
                assert(self.allowed_ports@.contains(p));
                return true;
            }
            i = i + 1;
        }
        assert(!self.allowed_ports@.contains(p));
        false
    }

    /// Returns the existing live entry for `key`, or — after the DMZ policy
    /// admits the destination port and capacity allows — allocates a fresh
    /// translated identity owned by `session_id` and inserts it. The table
    /// is unchanged unless a new entry is created; a second call with the
    /// same key therefore returns the same entry.
    pub fn lookup_or_create(&mut self, key: FlowKey, session_id: u64, now: u64) -> (r: Result<
        FlowEntry,
        FlowError,
    >)
        requires
            old(self).wf(),
        ensures
            final(self).wf(),
            old(self).same_config(*final(self)),
            has_key(old(self).entries@, key) ==> r == Ok::<FlowEntry, FlowError>(
                entry_of(old(self).entries@, key),
            ) && final(self).entries@ == old(self).entries@
                && final(self).next_port == old(self).next_port,
            !has_key(old(self).entries@, key) && !port_allowed(
                old(self).allowed_ports@,
                key.dst_port,
            ) ==> r == Err::<FlowEntry, FlowError>(FlowError::PolicyDenied)
                && *final(self) == *old(self),
            !has_key(old(self).entries@, key) && port_allowed(
                old(self).allowed_ports@,
                key.dst_port,
            ) && (old(self).entries@.len() == old(self).capacity || old(self).next_port == 0xffff)
                ==> r == Err::<FlowEntry, FlowError>(FlowError::TableFull)
                && *final(self) == *old(self),
            !has_key(old(self).entries@, key) && port_allowed(
                old(self).allowed_ports@,
                key.dst_port,
            ) && old(self).entries@.len() < old(self).capacity && old(self).next_port < 0xffff
                ==> r is Ok && r->Ok_0 == (FlowEntry {
                session_id,
                translated_addr: old(self).local_addr,
                translated_port: old(self).next_port,
                last_activity: now,
                tcp_state: TcpState::New,
            }) && final(self).entries@ == old(self).entries@.push((key, r->Ok_0))
                && final(self).next_port == old(self).next_port + 1,
            r is Ok ==> has_key(final(self).entries@, key) && entry_of(final(self).entries@, key)
                == r->Ok_0,
    {
        match self.find_index(key) {
            Some(i) => {
                let e = self.entries[i].1;
                proof {
                    lemma_entry_at(self.entries@, key, i as int);
                }
                Ok(e)
            },
            None => {
                if !self.port_permitted(key.dst_port) {
                    return Err(FlowError::PolicyDenied);
                }
                if self.entries.len() >= self.capacity || self.next_port >= 0xffff {
                    return Err(FlowError::TableFull);
                }
                let entry = FlowEntry {
                    session_id,
                    translated_addr: self.local_addr,
                    translated_port: self.next_port,
                    last_activity: now,
                    tcp_state: TcpState::New,
                };
                self.entries.push((key, entry));
                self.next_port = self.next_port + 1;
                proof {
                    let s = self.entries@;
                    assert(s[s.len() - 1].0 == key);
                    lemma_entry_at(s, key, s.len() - 1);
                }
                Ok(entry)
            },
        }
    }

    /// Records activity on an existing flow: its last-activity timestamp
    /// becomes `now`, everything else (and every other entry) is unchanged.
    pub fn touch(&mut self, key: FlowKey, now: u64) -> (found: bool)
        requires
            old(self).wf(),
        ensures
            final(self).wf(),
            old(self).same_config(*final(self)),
            final(self).next_port == old(self).next_port,
            final(self).entries@.len() == old(self).entries@.len(),
            found == has_key(old(self).entries@, key),
            forall|j: int|
                0 <= j < old(self).entries@.len() ==> final(self).entries@[j] == (if (
                #[trigger] old(self).entries@[j]).0 == key {
                    (key, (FlowEntry { last_activity: now, ..old(self).entries@[j].1 }))
                } else {
                    old(self).entries@[j]
                }),
    {
        match self.find_index(key) {
            Some(i) => {
                let mut pair = self.entries[i];
                pair.1.last_activity = now;
                self.entries[i] = pair;
                proof {
                    let o = old(self).entries@;
                    lemma_entry_at(o, key, i as int);
                    assert(forall|j: int|
                        0 <= j < o.len() && j != i ==> (#[trigger] o[j]).0 != key);
                }
                true
            },
            None => false,
        }
    }

    /// Marks an existing TCP flow as observed closing (FIN) or closed
    /// (RST); the closed entry stays until the next sweep reaps it.
    pub fn observe_close(&mut self, key: FlowKey, rst: bool) -> (found: bool)
        requires
            old(self).wf(),
        ensures
            final(self).wf(),
            old(self).same_config(*final(self)),
            final(self).next_port == old(self).next_port,
            final(self).entries@.len() == old(self).entries@.len(),
            found == has_key(old(self).entries@, key),
            forall|j: int|
                0 <= j < old(self).entries@.len() ==> final(self).entries@[j] == (if (
                #[trigger] old(self).entries@[j]).0 == key {
                    (
                        key,
                        (FlowEntry {
                            tcp_state: if rst {
                                TcpState::Closed
                            } else {
                                TcpState::Closing
                            },
                            ..old(self).entries@[j].1
                        }),
                    )
                } else {
                    old(self).entries@[j]
                }),
    {
        match self.find_index(key) {
            Some(i) => {
                let mut pair = self.entries[i];
                pair.1.tcp_state = if rst {
                    TcpState::Closed
                } else {
                    TcpState::Closing
                };
                self.entries[i] = pair;
                proof {
                    let o = old(self).entries@;
                    lemma_entry_at(o, key, i as int);
                    assert(forall|j: int|
                        0 <= j < o.len() && j != i ==> (#[trigger] o[j]).0 != key);
                }
                true
            },
            None => false,
        }
    }

    /// Upgrades an existing flow from `New` to `Established` once ordinary
    /// (non-SYN, non-closing) traffic is seen on it.
    pub fn mark_established(&mut self, key: FlowKey) -> (found: bool)
        requires
            old(self).wf(),
        ensures
            final(self).wf(),
            old(self).same_config(*final(self)),
            final(self).next_port == old(self).next_port,
            final(self).entries@.len() == old(self).entries@.len(),
            found == has_key(old(self).entries@, key),
            forall|j: int|
                0 <= j < old(self).entries@.len() ==> final(self).entries@[j] == (if (
                #[trigger] old(self).entries@[j]).0 == key && old(self).entries@[j].1.tcp_state
                    == TcpState::New {
                    (key, (FlowEntry { tcp_state: TcpState::Established, ..old(self).entries@[j].1 }))
                } else {
                    old(self).entries@[j]
                }),
    {
        match self.find_index(key) {
            Some(i) => {
                let mut pair = self.entries[i];
                if pair.1.tcp_state == TcpState::New {
                    pair.1.tcp_state = TcpState::Established;
                    self.entries[i] = pair;
                }
                proof {
                    let o = old(self).entries@;
                    lemma_entry_at(o, key, i as int);
                    assert(forall|j: int|
                        0 <= j < o.len() && j != i ==> (#[trigger] o[j]).0 != key);
                }
                true
            },
            None => false,
        }
    }

    /// Sweeps the table: removes every entry idle for longer than
    /// `threshold` at time `now`, and every entry already observed
    /// closing/closed; everything else is retained unchanged. Returns the
    /// removed entries so their bound resources can be released.
    pub fn evict_idle(&mut self, now: u64, threshold: u64) -> (removed: Vec<(FlowKey, FlowEntry)>)
        requires
            old(self).wf(),
        ensures
            final(self).wf(),
            old(self).same_config(*final(self)),
            final(self).next_port == old(self).next_port,
            final(self).entries@.len() + removed@.len() == old(self).entries@.len(),
            forall|j: int|
                0 <= j < old(self).entries@.len() && expired(
                    (#[trigger] old(self).entries@[j]).1,
                    now,
                    threshold,
                ) ==> !has_key(final(self).entries@, old(self).entries@[j].0)
                    && removed@.contains(old(self).entries@[j]),
            forall|j: int|
                0 <= j < old(self).entries@.len() && !expired(
                    (#[trigger] old(self).entries@[j]).1,
                    now,
                    threshold,
                ) ==> has_key(final(self).entries@, old(self).entries@[j].0) && entry_of(
                    final(self).entries@,
                    old(self).entries@[j].0,
                ) == old(self).entries@[j].1,
            forall|m: int|
                0 <= m < final(self).entries@.len() ==> old(self).entries@.contains(
                    #[trigger] final(self).entries@[m],
                ) && !expired(final(self).entries@[m].1, now, threshold),
            forall|m: int|
                0 <= m < removed@.len() ==> old(self).entries@.contains(#[trigger] removed@[m])
                    && expired(removed@[m].1, now, threshold),
    {
        let ghost orig = self.entries@;
        let mut kept: Vec<(FlowKey, FlowEntry)> = Vec::new();
        let mut gone: Vec<(FlowKey, FlowEntry)> = Vec::new();
        let ghost mut ksrc: Seq<int> = Seq::empty();
        let ghost mut gsrc: Seq<int> = Seq::empty();
        let mut i: usize = 0;
        while i < self.entries.len()
            invariant
                self.entries@ == orig,
                old(self).wf(),
                orig == old(self).entries@,
                i <= orig.len(),
                kept@.len() + gone@.len() == i,
                ksrc.len() == kept@.len(),
                gsrc.len() == gone@.len(),
                forall|m: int|
                    0 <= m < kept@.len() ==> 0 <= #[trigger] ksrc[m] < i && kept@[m]
                        == orig[ksrc[m]] && !expired(orig[ksrc[m]].1, now, threshold),
                forall|m: int|
                    0 <= m < gone@.len() ==> 0 <= #[trigger] gsrc[m] < i && gone@[m]
                        == orig[gsrc[m]] && expired(orig[gsrc[m]].1, now, threshold),
                forall|m1: int, m2: int|
                    0 <= m1 < m2 < kept@.len() ==> #[trigger] ksrc[m1] < #[trigger] ksrc[m2],
                forall|j: int|
                    0 <= j < i && expired((#[trigger] orig[j]).1, now, threshold)
                        ==> gone@.contains(orig[j]),
                forall|j: int|
                    0 <= j < i && !expired((#[trigger] orig[j]).1, now, threshold)
                        ==> kept@.contains(orig[j]),
            decreases orig.len() - i,
        {
            let ghost kept0 = kept@;
            let ghost gone0 = gone@;
            let pair = self.entries[i];
            let e = pair.1;
            let idle_expired: bool = if now >= e.last_activity {
                now - e.last_activity > threshold
            } else {
                false
            };
            let is_expired: bool = idle_expired || e.tcp_state == TcpState::Closing
                || e.tcp_state == TcpState::Closed;
            proof {
                assert(is_expired == expired(orig[i as int].1, now, threshold));
            }
            if is_expired {
                gone.push(pair);
                proof {
                    gsrc = gsrc.push(i as int);
                    assert(gone@[gone@.len() - 1] == orig[i as int]);
                    assert forall|j: int|
                        0 <= j < i + 1 && expired((#[trigger] orig[j]).1, now, threshold) implies
                        gone@.contains(orig[j]) by {
                        if j == i {
                            assert(gone@[gone@.len() - 1] == orig[j]);
                        } else {
                            let m = choose|m: int| 0 <= m < gone0.len() && gone0[m] == orig[j];
                            assert(gone@[m] == orig[j]);
                        }
                    }
                    assert forall|j: int|
                        0 <= j < i + 1 && !expired((#[trigger] orig[j]).1, now, threshold) implies
                        kept@.contains(orig[j]) by {
                        let m = choose|m: int| 0 <= m < kept0.len() && kept0[m] == orig[j];
                        assert(kept@[m] == orig[j]);
                    }
                }
            } else {
                kept.push(pair);
                proof {
                    ksrc = ksrc.push(i as int);
                    assert(kept@[kept@.len() - 1] == orig[i as int]);
                    assert forall|j: int|
                        0 <= j < i + 1 && !expired((#[trigger] orig[j]).1, now, threshold) implies
                        kept@.contains(orig[j]) by {
                        if j == i {
                            assert(kept@[kept@.len() - 1] == orig[j]);
                        } else {
                            let m = choose|m: int| 0 <= m < kept0.len() && kept0[m] == orig[j];
                            assert(kept@[m] == orig[j]);
                        }
                    }
                    assert forall|j: int|
                        0 <= j < i + 1 && expired((#[trigger] orig[j]).1, now, threshold) implies
                        gone@.contains(orig[j]) by {
                        let m = choose|m: int| 0 <= m < gone0.len() && gone0[m] == orig[j];
                        assert(gone@[m] == orig[j]);
                    }
                }
            }
            i = i + 1;
        }
        self.entries = kept;
        proof {
            let f = self.entries@;
            assert forall|m: int| 0 <= m < f.len() implies orig.contains(#[trigger] f[m])
                && !expired(f[m].1, now, threshold) && f[m].1.translated_addr == old(
                self,
            ).local_addr && f[m].1.translated_port < old(self).next_port && port_allowed(
                old(self).allowed_ports@,
                f[m].0.dst_port,
            ) by {
                let j = ksrc[m];
                assert(orig[j] == f[m]);
                assert(orig.contains(f[m]));
            }
            assert forall|m1: int, m2: int| 0 <= m1 < m2 < f.len() implies (#[trigger] f[m1]).0 != (
            #[trigger] f[m2]).0 && f[m1].1.translated_port != f[m2].1.translated_port by {
                let j1 = ksrc[m1];
                let j2 = ksrc[m2];
                assert(j1 < j2);
                assert(orig[j1].0 != orig[j2].0);
                assert(orig[j1].1.translated_port != orig[j2].1.translated_port);
            }
            assert forall|m: int| 0 <= m < gone@.len() implies orig.contains(#[trigger] gone@[m])
                && expired(gone@[m].1, now, threshold) by {
                let j = gsrc[m];
                assert(orig[j] == gone@[m]);
                assert(orig.contains(gone@[m]));
            }
            assert forall|j: int|
                0 <= j < orig.len() && expired((#[trigger] orig[j]).1, now, threshold) implies
                !has_key(f, orig[j].0) by {
                if has_key(f, orig[j].0) {
                    let m = choose|m: int| 0 <= m < f.len() && f[m].0 == orig[j].0;
                    let j2 = ksrc[m];
                    assert(f[m] == orig[j2] && !expired(orig[j2].1, now, threshold));
                    assert(orig[j2].0 == orig[j].0);
                    if j2 != j {
                        assert(orig[j2].0 != orig[j].0);
                    }
                }
            }
            assert forall|j: int|
                0 <= j < orig.len() && !expired((#[trigger] orig[j]).1, now, threshold) implies
                has_key(f, orig[j].0) && entry_of(f, orig[j].0) == orig[j].1 by {
                assert(kept@.contains(orig[j]));
                let m = choose|m: int| 0 <= m < f.len() && f[m] == orig[j];
                lemma_entry_at(f, orig[j].0, m);
            }
        }
        gone
    }

    /// Removes every flow owned by `session_id` (session teardown); flows
    /// of other sessions are retained unchanged. Returns the removed
    /// entries so their bound resources can be released.
    pub fn remove_session(&mut self, session_id: u64) -> (removed: Vec<(FlowKey, FlowEntry)>)
        requires
            old(self).wf(),
        ensures
            final(self).wf(),
            old(self).same_config(*final(self)),
            final(self).next_port == old(self).next_port,
            final(self).entries@.len() + removed@.len() == old(self).entries@.len(),
            forall|j: int|
                0 <= j < old(self).entries@.len() && (#[trigger] old(self).entries@[j]).1.session_id
                    == session_id ==> !has_key(final(self).entries@, old(self).entries@[j].0)
                    && removed@.contains(old(self).entries@[j]),
            forall|j: int|
                0 <= j < old(self).entries@.len() && (#[trigger] old(self).entries@[j]).1.session_id
                    != session_id ==> has_key(final(self).entries@, old(self).entries@[j].0)
                    && entry_of(final(self).entries@, old(self).entries@[j].0) == old(
                    self,
                ).entries@[j].1,
            forall|m: int|
                0 <= m < final(self).entries@.len() ==> old(self).entries@.contains(
                    #[trigger] final(self).entries@[m],
                ) && final(self).entries@[m].1.session_id != session_id,
            forall|m: int|
                0 <= m < removed@.len() ==> old(self).entries@.contains(#[trigger] removed@[m])
                    && removed@[m].1.session_id == session_id,
    {
        let ghost orig = self.entries@;
        let mut kept: Vec<(FlowKey, FlowEntry)> = Vec::new();
        let mut gone: Vec<(FlowKey, FlowEntry)> = Vec::new();
        let ghost mut ksrc: Seq<int> = Seq::empty();
        let ghost mut gsrc: Seq<int> = Seq::empty();
        let mut i: usize = 0;
        while i < self.entries.len()
            invariant
                self.entries@ == orig,
                old(self).wf(),
                orig == old(self).entries@,
                i <= orig.len(),
                kept@.len() + gone@.len() == i,
                ksrc.len() == kept@.len(),
                gsrc.len() == gone@.len(),
                forall|m: int|
                    0 <= m < kept@.len() ==> 0 <= #[trigger] ksrc[m] < i && kept@[m]
                        == orig[ksrc[m]] && orig[ksrc[m]].1.session_id != session_id,
                forall|m: int|
                    0 <= m < gone@.len() ==> 0 <= #[trigger] gsrc[m] < i && gone@[m]
                        == orig[gsrc[m]] && orig[gsrc[m]].1.session_id == session_id,
                forall|m1: int, m2: int|
                    0 <= m1 < m2 < kept@.len() ==> #[trigger] ksrc[m1] < #[trigger] ksrc[m2],
                forall|j: int|
                    0 <= j < i && (#[trigger] orig[j]).1.session_id == session_id
                        ==> gone@.contains(orig[j]),
                forall|j: int|
                    0 <= j < i && (#[trigger] orig[j]).1.session_id != session_id
                        ==> kept@.contains(orig[j]),
            decreases orig.len() - i,
        {
            let ghost kept0 = kept@;
            let ghost gone0 = gone@;
            let pair = self.entries[i];
            if pair.1.session_id == session_id {
                gone.push(pair);
                proof {
                    gsrc = gsrc.push(i as int);
                    assert(gone@[gone@.len() - 1] == orig[i as int]);
                    assert forall|j: int|
                        0 <= j < i + 1 && (#[trigger] orig[j]).1.session_id == session_id implies
                        gone@.contains(orig[j]) by {
                        if j == i {
                            assert(gone@[gone@.len() - 1] == orig[j]);
                        } else {
                            let m = choose|m: int| 0 <= m < gone0.len() && gone0[m] == orig[j];
                            assert(gone@[m] == orig[j]);
                        }
                    }
                    assert forall|j: int|
                        0 <= j < i + 1 && (#[trigger] orig[j]).1.session_id != session_id implies
                        kept@.contains(orig[j]) by {
                        let m = choose|m: int| 0 <= m < kept0.len() && kept0[m] == orig[j];
                        assert(kept@[m] == orig[j]);
                    }
                }
            } else {
                kept.push(pair);
                proof {
                    ksrc = ksrc.push(i as int);
                    assert(kept@[kept@.len() - 1] == orig[i as int]);
                    assert forall|j: int|
                        0 <= j < i + 1 && (#[trigger] orig[j]).1.session_id != session_id implies
                        kept@.contains(orig[j]) by {
                        if j == i {
                            assert(kept@[kept@.len() - 1] == orig[j]);
                        } else {
                            let m = choose|m: int| 0 <= m < kept0.len() && kept0[m] == orig[j];
                            assert(kept@[m] == orig[j]);
                        }
                    }
                    assert forall|j: int|
                        0 <= j < i + 1 && (#[trigger] orig[j]).1.session_id == session_id implies
                        gone@.contains(orig[j]) by {
                        let m = choose|m: int| 0 <= m < gone0.len() && gone0[m] == orig[j];
                        assert(gone@[m] == orig[j]);
                    }
                }
            }
            i = i + 1;
        }
        self.entries = kept;
        proof {
            let f = self.entries@;
            assert forall|m: int| 0 <= m < f.len() implies orig.contains(#[trigger] f[m])
                && f[m].1.session_id != session_id && f[m].1.translated_addr == old(
                self,
            ).local_addr && f[m].1.translated_port < old(self).next_port && port_allowed(
                old(self).allowed_ports@,
                f[m].0.dst_port,
            ) by {
                let j = ksrc[m];
                assert(orig[j] == f[m]);
                assert(orig.contains(f[m]));
            }
            assert forall|m1: int, m2: int| 0 <= m1 < m2 < f.len() implies (#[trigger] f[m1]).0 != (
            #[trigger] f[m2]).0 && f[m1].1.translated_port != f[m2].1.translated_port by {
                let j1 = ksrc[m1];
                let j2 = ksrc[m2];
                assert(j1 < j2);
                assert(orig[j1].0 != orig[j2].0);
                assert(orig[j1].1.translated_port != orig[j2].1.translated_port);
            }
            assert forall|m: int| 0 <= m < gone@.len() implies orig.contains(#[trigger] gone@[m])
                && gone@[m].1.session_id == session_id by {
                let j = gsrc[m];
                assert(orig[j] == gone@[m]);
                assert(orig.contains(gone@[m]));
            }
            assert forall|j: int|
                0 <= j < orig.len() && (#[trigger] orig[j]).1.session_id == session_id implies
                !has_key(f, orig[j].0) by {
                if has_key(f, orig[j].0) {
                    let m = choose|m: int| 0 <= m < f.len() && f[m].0 == orig[j].0;
                    let j2 = ksrc[m];
                    assert(f[m] == orig[j2] && orig[j2].1.session_id != session_id);
                    assert(orig[j2].0 == orig[j].0);
                    if j2 != j {
                        assert(orig[j2].0 != orig[j].0);
                    }
                }
            }
            assert forall|j: int|
                0 <= j < orig.len() && (#[trigger] orig[j]).1.session_id != session_id implies
                has_key(f, orig[j].0) && entry_of(f, orig[j].0) == orig[j].1 by {
                assert(kept@.contains(orig[j]));
                let m = choose|m: int| 0 <= m < f.len() && f[m] == orig[j];
                lemma_entry_at(f, orig[j].0, m);
            }
        }
        gone
    }

    /// Finds the flow whose translated identity is (`addr`, `port`): the
    /// reverse lookup used for traffic coming back from the real network.
    pub fn reverse_lookup(&self, addr: u32, port: u16) -> (r: Option<(FlowKey, FlowEntry)>)
        requires
            self.wf(),
        ensures
            match r {
                Some(p) => has_key(self.entries@, p.0) && entry_of(self.entries@, p.0) == p.1
                    && p.1.translated_addr == addr && p.1.translated_port == port,
                None => forall|j: int|
                    0 <= j < self.entries@.len() ==> !((#[trigger] self.entries@[j]).1
                        .translated_addr == addr && self.entries@[j].1.translated_port == port),
            },
    {
        let mut i: usize = 0;
        while i < self.entries.len()
            invariant
                self.wf(),
                i <= self.entries@.len(),
                forall|j: int|
                    0 <= j < i ==> !((#[trigger] self.entries@[j]).1.translated_addr == addr
                        && self.entries@[j].1.translated_port == port),
            decreases self.entries@.len() - i,
        {
            let pair = self.entries[i];
            if pair.1.translated_addr == addr && pair.1.translated_port == port {
                proof {
                    lemma_entry_at(self.entries@, pair.0, i as int);
                }
                return Some(pair);
            }
            i = i + 1;
        }
        None
    }
}

/// Law: an entry just created for `key` is exactly what the next lookup of
/// `key` finds — creation followed by lookup yields the same entry, not a
/// new allocation.
pub proof fn lemma_create_then_lookup(pre: Seq<(FlowKey, FlowEntry)>, key: FlowKey, e: FlowEntry)
    requires
        distinct_keys(pre),
        !has_key(pre, key),
    ensures
        distinct_keys(pre.push((key, e))),
        has_key(pre.push((key, e)), key),
        entry_of(pre.push((key, e)), key) == e,
{
    let s = pre.push((key, e));
    assert(forall|j: int| 0 <= j < pre.len() ==> (#[trigger] pre[j]).0 != key);
    assert(forall|j: int| 0 <= j < s.len() - 1 ==> #[trigger] s[j] == pre[j]);
    assert(s[s.len() - 1].0 == key);
    lemma_entry_at(s, key, s.len() - 1);
}

} // verus!
