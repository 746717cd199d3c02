//! The connection registry: every live client session, keyed by a
//! process-unique id, with its catch-up state and error-strike count.

use vstd::prelude::*;

verus! {

/// Most strikes a session may carry and stay connected; the next strike
/// removes it.
pub const MAX_STRIKES: u8 = 4;

/// Where a session stands in the catch-up handshake.
pub enum Phase {
    /// Nothing pending: the handshake starts (or restarts) with a length
    /// request.
    AwaitLengthRequest,
    /// A length response has gone out; the snapshot whose byte size was
    /// announced is held so that exactly those bytes answer the history
    /// request.
    AwaitHistoryRequest(Vec<u8>),
    /// The snapshot has gone out; a confirmation is awaited.
    AwaitConfirm,
}

/// Mathematical image of a handshake phase.
pub ghost enum PhaseModel {
    AwaitLengthRequest,
    AwaitHistoryRequest(Seq<u8>),
    AwaitConfirm,
}

impl View for Phase {
    type V = PhaseModel;

    open spec fn view(&self) -> PhaseModel {
        match self {
            Phase::AwaitLengthRequest => PhaseModel::AwaitLengthRequest,
            Phase::AwaitHistoryRequest(p) => PhaseModel::AwaitHistoryRequest(p@),
            Phase::AwaitConfirm => PhaseModel::AwaitConfirm,
        }
    }
}

/// One client session as the registry tracks it. The socket itself stays
/// with the caller, filed under the same id.
pub struct Session {
    pub history_synced: bool,
    pub error_strikes: u8,
    pub phase: Phase,
}

/// Mathematical image of a session.
pub ghost struct SessionModel {
    pub history_synced: bool,
    pub error_strikes: u8,
    pub phase: PhaseModel,
}

impl View for Session {
    type V = SessionModel;

    open spec fn view(&self) -> SessionModel {
        SessionModel {
            history_synced: self.history_synced,
            error_strikes: self.error_strikes,
            phase: self.phase@,
        }
    }
}

/// The fresh session a connection starts with.
pub open spec fn new_session() -> SessionModel {
    SessionModel { history_synced: false, error_strikes: 0, phase: PhaseModel::AwaitLengthRequest }
}

pub open spec fn has_id(s: Seq<(u64, SessionModel)>, id: u64) -> bool {
    exists|i: int| 0 <= i < s.len() && s[i].0 == id
}

/// The index of the entry with this id (unique under `wf_sessions`).
pub open spec fn idx_of(s: Seq<(u64, SessionModel)>, id: u64) -> int
    recommends
        has_id(s, id),
{
    choose|i: int| 0 <= i < s.len() && s[i].0 == id
}

pub open spec fn session_of(s: Seq<(u64, SessionModel)>, id: u64) -> SessionModel
    recommends
        has_id(s, id),
{
    s[idx_of(s, id)].1
}

/// Well-formed session table: ids unique and all below the next free id.
pub open spec fn wf_sessions(s: Seq<(u64, SessionModel)>, next_id: u64) -> bool {
    &&& forall|i: int, j: int| 0 <= i < j < s.len() ==> (#[trigger] s[i].0) != (#[trigger] s[j].0)
    &&& forall|i: int| 0 <= i < s.len() ==> (#[trigger] s[i].0) < next_id
}

/// The ids of the synced sessions, in registry order.
pub open spec fn synced_ids_of(s: Seq<(u64, SessionModel)>) -> Seq<u64>
    decreases s.len(),
{
    if s.len() == 0 {
        Seq::empty()
    } else {
        synced_ids_of(s.drop_last()) + if s.last().1.history_synced {
            seq![s.last().0]
        } else {
            Seq::empty()
        }
    }
}

/// Every id listed as synced belongs to a synced entry of the table.
pub proof fn lemma_synced_ids_are_synced(s: Seq<(u64, SessionModel)>, id: u64)
    requires
        synced_ids_of(s).contains(id),
    ensures
        exists|i: int| 0 <= i < s.len() && s[i].0 == id && (#[trigger] s[i].1).history_synced,
    decreases s.len(),
{
    if s.len() > 0 {
        if s.last().1.history_synced && s.last().0 == id {
            assert(s[s.len() - 1].0 == id && s[s.len() - 1].1.history_synced);
        } else {
            assert(synced_ids_of(s.drop_last()).contains(id));
            lemma_synced_ids_are_synced(s.drop_last(), id);
            let i = choose|i: int|
                0 <= i < s.drop_last().len() && s.drop_last()[i].0 == id && (#[trigger] s.drop_last()[i].1).history_synced;
            assert(s[i].0 == id && s[i].1.history_synced);
        }
    }
}

/// The registry proper.
pub struct Registry {
    pub entries: Vec<(u64, Session)>,
    pub next_id: u64,
}

impl View for Registry {
    type V = Seq<(u64, SessionModel)>;

    open spec fn view(&self) -> Seq<(u64, SessionModel)> {
        self.entries@.map_values(|e: (u64, Session)| (e.0, e.1@))
    }
}

impl Registry {
    pub open spec fn wf(&self) -> bool {
        wf_sessions(self@, self.next_id)
    }

    /// The empty registry.
    pub fn new() -> (r: Registry)
        ensures
            r@ == Seq::<(u64, SessionModel)>::empty(),
            r.next_id == 0,
            r.wf(),
    {
        let r = Registry { entries: Vec::new(), next_id: 0 };
        proof {
            assert(r@ =~= Seq::<(u64, SessionModel)>::empty());
        }
        r
    }

    /// Adds a fresh, unsynced session and returns its id: ids count upward,
    /// so they never collide within one process lifetime. `None` only when
    /// the id space is exhausted, in which case nothing changes.
    pub fn register(&mut self) -> (r: Option<u64>)
        requires
            old(self).wf(),
        ensures
            final(self).wf(),
            r matches Some(id) ==> {
                &&& id == old(self).next_id
                &&& final(self)@ == old(self)@.push((id, new_session()))
                &&& final(self).next_id == id + 1
            },
            r is None ==> old(self).next_id == u64::MAX && *final(self) == *old(self),
    {
        if self.next_id == u64::MAX {
            return None;
        }
        let id = self.next_id;
        self.entries.push(
            (
                id,
                Session {
                    history_synced: false,
                    error_strikes: 0,
                    phase: Phase::AwaitLengthRequest,
                },
            ),
        );
        self.next_id = id + 1;
        proof {
            assert(self@ =~= old(self)@.push((id, new_session())));
        }
        Some(id)
    }

    /// The index of the entry for this id, if any.
    fn find(&self, id: u64) -> (r: Option<usize>)
        ensures
            r matches Some(i) ==> i < self@.len() && self@[i as int].0 == id,
            r is None ==> !has_id(self@, id),
    {
        let mut i: usize = 0;
        let n = self.entries.len();
        while i < n
            invariant
                i <= n,
                n == self.entries@.len(),
                forall|j: int| 0 <= j < i ==> (#[trigger] self@[j].0) != id,
            decreases n - i,
        {
            if self.entries[i].0 == id {
                return Some(i);
            }
            i = i + 1;
        }
        None
    }

    /// Whether a session with this id is registered.
    pub fn contains(&self, id: u64) -> (r: bool)
        ensures
            r == has_id(self@, id),
    {
        self.find(id).is_some()
    }

    /// Marks the session synced; without an entry for the id (the client is
    /// already gone) nothing changes.
    pub fn mark_synced(&mut self, id: u64)
        requires
            old(self).wf(),
        ensures
            final(self).wf(),
            final(self).next_id == old(self).next_id,
            has_id(old(self)@, id) ==> final(self)@ == old(self)@.update(
                idx_of(old(self)@, id),
                (
                    id,
                    SessionModel {
                        history_synced: true,
                        ..session_of(old(self)@, id)
                    },
                ),
            ),
            !has_id(old(self)@, id) ==> *final(self) == *old(self),
    {
        let i = match self.find(id) {
            Some(i) => i,
            None => {
                return ;
            },
        };
        proof {
            lemma_idx_unique(self@, self.next_id, i as int, id);
        }
        self.entries[i].1.history_synced = true;
        proof {
            assert(self@ =~= old(self)@.update(
                i as int,
                (id, SessionModel { history_synced: true, ..session_of(old(self)@, id) }),
            ));
        }
    }

    /// Replaces the session's handshake phase, handing back the phase it
    /// held; without an entry for the id nothing changes and `None` returns.
    pub fn swap_phase(&mut self, id: u64, phase: Phase) -> (r: Option<Phase>)
        requires
            old(self).wf(),
        ensures
            final(self).wf(),
            final(self).next_id == old(self).next_id,
            r matches Some(p) ==> {
                &&& has_id(old(self)@, id)
                &&& p@ == session_of(old(self)@, id).phase
                &&& final(self)@ == old(self)@.update(
                    idx_of(old(self)@, id),
                    (id, SessionModel { phase: phase@, ..session_of(old(self)@, id) }),
                )
            },
            r is None ==> !has_id(old(self)@, id) && *final(self) == *old(self),
    {
        let i = match self.find(id) {
            Some(i) => i,
            None => {
                return None;
            },
        };
        proof {
            lemma_idx_unique(self@, self.next_id, i as int, id);
        }
        let ghost pre = session_of(self@, id);
        let mut taken = phase;
        core::mem::swap(&mut self.entries[i].1.phase, &mut taken);
        proof {
            assert(self@ =~= old(self)@.update(
                i as int,
                (id, SessionModel { phase: phase@, ..pre }),
            ));
        }
        Some(taken)
    }

    /// Counts one more strike against the session and returns the new count;
    /// without an entry for the id nothing changes and `None` returns.
    pub fn record_error(&mut self, id: u64) -> (r: Option<u8>)
        requires
            old(self).wf(),
            has_id(old(self)@, id) ==> session_of(old(self)@, id).error_strikes < u8::MAX,
        ensures
            final(self).wf(),
            final(self).next_id == old(self).next_id,
            r matches Some(n) ==> {
                &&& has_id(old(self)@, id)
                &&& n == session_of(old(self)@, id).error_strikes + 1
                &&& final(self)@ == old(self)@.update(
                    idx_of(old(self)@, id),
                    (id, SessionModel { error_strikes: n, ..session_of(old(self)@, id) }),
                )
            },
            r is None ==> !has_id(old(self)@, id) && *final(self) == *old(self),
    {
        let i = match self.find(id) {
            Some(i) => i,
            None => {
                return None;
            },
        };
        proof {
            lemma_idx_unique(self@, self.next_id, i as int, id);
        }
        let n = self.entries[i].1.error_strikes + 1;
        self.entries[i].1.error_strikes = n;
        proof {
            assert(self@ =~= old(self)@.update(
                i as int,
                (id, SessionModel { error_strikes: n, ..session_of(old(self)@, id) }),
            ));
        }
        Some(n)
    }

    /// Removes the session; with no entry for the id nothing changes, so the
    /// operation is idempotent.
    pub fn remove(&mut self, id: u64)
        requires
            old(self).wf(),
        ensures
            final(self).wf(),
            final(self).next_id == old(self).next_id,
            has_id(old(self)@, id) ==> final(self)@ == old(self)@.remove(idx_of(old(self)@, id)),
            !has_id(old(self)@, id) ==> *final(self) == *old(self),
            !has_id(final(self)@, id),
    {
        let i = match self.find(id) {
            Some(i) => i,
            None => {
                return ;
            },
        };
        proof {
            lemma_idx_unique(self@, self.next_id, i as int, id);
        }
        self.entries.remove(i);
        proof {
            assert(self@ =~= old(self)@.remove(i as int));
            assert forall|j: int| 0 <= j < self@.len() implies (#[trigger] self@[j].0) != id by {
                if j < i {
                    assert(self@[j] == old(self)@[j]);
                } else {
                    assert(self@[j] == old(self)@[j + 1]);
                }
            }
        }
    }

    /// A point-in-time snapshot of the synced sessions' ids, in registry
    /// order: the dispatcher's fan-out list.
    pub fn synced_ids(&self) -> (r: Vec<u64>)
        ensures
            r@ == synced_ids_of(self@),
    {
        let mut out: Vec<u64> = Vec::new();
        let mut i: usize = 0;
        let n = self.entries.len();
        while i < n
            invariant
                i <= n,
                n == self.entries@.len(),
                out@ == synced_ids_of(self@.take(i as int)),
            decreases n - i,
        {
            proof {
                let t = self@.take(i as int + 1);
                assert(t.drop_last() =~= self@.take(i as int));
                assert(t.last() == self@[i as int]);
            }
            if self.entries[i].1.history_synced {
                out.push(self.entries[i].0);
                proof {
                    assert(out@ =~= synced_ids_of(self@.take(i as int + 1)));
                }
            } else {
                proof {
                    assert(out@ =~= synced_ids_of(self@.take(i as int + 1)));
                }
            }
            i = i + 1;
        }
        proof {
            assert(self@.take(n as int) =~= self@);
        }
        out
    }
}

/// Under unique ids, any index holding `id` is the index `idx_of` picks.
pub proof fn lemma_idx_unique(s: Seq<(u64, SessionModel)>, next_id: u64, i: int, id: u64)
    requires
        wf_sessions(s, next_id),
        0 <= i < s.len(),
        s[i].0 == id,
    ensures
        has_id(s, id),
        idx_of(s, id) == i,
{
    assert(has_id(s, id));
    let j = idx_of(s, id);
    if i < j {
        assert(s[i].0 != s[j].0);
    } else if j < i {
        assert(s[j].0 != s[i].0);
    }
}

} // verus!
