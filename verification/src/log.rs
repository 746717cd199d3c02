//! The bounded, time-ordered history log.
//!
//! The log keeps at most [`MAX_HISTORY`] records, sorted ascending by
//! timestamp. A record is appended by first evicting the front entry when
//! the log is full (oldest by log position), then placing the newcomer after
//! every entry whose timestamp is not greater — the stable insert that a
//! full re-sort of the old order plus the newcomer would produce.

use vstd::prelude::*;
use crate::codec::decode_history;
use crate::codec::encode_history;
use crate::codec::history_bytes;
use crate::codec::lemma_history_round_trip;
use crate::codec::parse_history;
use crate::codec::valid_history_frame;
use crate::record::RecordModel;
use crate::record::TextureData;
use crate::record::models;
use crate::record::wf_record;

verus! {

/// Most records the log retains.
pub const MAX_HISTORY: usize = 56;

pub open spec fn sorted_by_timestamp(s: Seq<RecordModel>) -> bool {
    forall|i: int, j: int| 0 <= i <= j < s.len() ==> s[i].timestamp <= s[j].timestamp
}

/// The log once room has been made for one more record: with the log full,
/// the record at the front — the oldest by log position — leaves.
pub open spec fn evicted(s: Seq<RecordModel>) -> Seq<RecordModel> {
    if s.len() >= MAX_HISTORY {
        s.drop_first()
    } else {
        s
    }
}

/// Where a record with timestamp `t` lands: after every entry whose
/// timestamp is not greater, so that equal timestamps keep arrival order.
pub open spec fn insert_position(s: Seq<RecordModel>, t: u128) -> int
    decreases s.len(),
{
    if s.len() == 0 {
        0
    } else if s[0].timestamp <= t {
        1 + insert_position(s.drop_first(), t)
    } else {
        0
    }
}

/// The log after appending one record: evict for room, then stable-insert.
pub open spec fn appended(s: Seq<RecordModel>, m: RecordModel) -> Seq<RecordModel> {
    evicted(s).insert(insert_position(evicted(s), m.timestamp), m)
}

pub proof fn lemma_insert_position_bounds(s: Seq<RecordModel>, t: u128)
    ensures
        0 <= insert_position(s, t) <= s.len(),
        forall|i: int| 0 <= i < insert_position(s, t) ==> s[i].timestamp <= t,
    decreases s.len(),
{
    if s.len() > 0 && s[0].timestamp <= t {
        lemma_insert_position_bounds(s.drop_first(), t);
        assert forall|i: int| 0 <= i < insert_position(s, t) implies s[i].timestamp <= t by {
            if i > 0 {
                assert(s.drop_first()[i - 1] == s[i]);
            }
        }
    }
}

proof fn lemma_insert_position_first_larger(s: Seq<RecordModel>, t: u128)
    ensures
        insert_position(s, t) < s.len() ==> s[insert_position(s, t)].timestamp > t,
    decreases s.len(),
{
    if s.len() > 0 && s[0].timestamp <= t {
        lemma_insert_position_first_larger(s.drop_first(), t);
        lemma_insert_position_bounds(s.drop_first(), t);
        if insert_position(s, t) < s.len() {
            assert(s.drop_first()[insert_position(s.drop_first(), t)] == s[insert_position(s, t)]);
        }
    }
}

pub proof fn lemma_insert_position_sorted(s: Seq<RecordModel>, t: u128)
    requires
        sorted_by_timestamp(s),
    ensures
        0 <= insert_position(s, t) <= s.len(),
        forall|i: int| 0 <= i < insert_position(s, t) ==> s[i].timestamp <= t,
        forall|i: int| insert_position(s, t) <= i < s.len() ==> s[i].timestamp > t,
{
    lemma_insert_position_bounds(s, t);
    lemma_insert_position_first_larger(s, t);
    let p = insert_position(s, t);
    assert forall|i: int| p <= i < s.len() implies s[i].timestamp > t by {
        assert(s[p].timestamp <= s[i].timestamp);
    }
}

/// Law: after any append to a log within its bound, the length stays within
/// the bound and the records stand sorted ascending by timestamp.
pub proof fn lemma_append_keeps_bound_and_order(s: Seq<RecordModel>, m: RecordModel)
    requires
        s.len() <= MAX_HISTORY,
        sorted_by_timestamp(s),
    ensures
        appended(s, m).len() <= MAX_HISTORY,
        appended(s, m).len() == if s.len() < MAX_HISTORY {
            s.len() + 1
        } else {
            s.len()
        },
        sorted_by_timestamp(appended(s, m)),
{
    let base = evicted(s);
    assert(sorted_by_timestamp(base));
    let p = insert_position(base, m.timestamp);
    lemma_insert_position_sorted(base, m.timestamp);
    let r = appended(s, m);
    assert forall|i: int, j: int| 0 <= i <= j < r.len() implies r[i].timestamp
        <= r[j].timestamp by {
        if i < p {
            assert(r[i] == base[i]);
        } else if i == p {
            assert(r[i] == m);
        } else {
            assert(r[i] == base[i - 1]);
        }
        if j < p {
            assert(r[j] == base[j]);
        } else if j == p {
            assert(r[j] == m);
        } else {
            assert(r[j] == base[j - 1]);
        }
    }
}

/// Law: an append to a full log keeps the length at the bound and evicts
/// exactly the record at the front — the rest survive, joined by the new one.
pub proof fn lemma_full_append_evicts_front(s: Seq<RecordModel>, m: RecordModel)
    requires
        s.len() == MAX_HISTORY,
    ensures
        appended(s, m).len() == MAX_HISTORY,
        appended(s, m).to_multiset() == s.drop_first().to_multiset().insert(m),
{
    let base = s.drop_first();
    let p = insert_position(base, m.timestamp);
    lemma_insert_position_bounds(base, m.timestamp);
    assert(base.insert(p, m) =~= base.subrange(0, p).push(m) + base.subrange(p, base.len() as int));
    vstd::seq_lib::lemma_multiset_commutative(base.subrange(0, p).push(m), base.subrange(p, base.len() as int));
    base.subrange(0, p).to_multiset_ensures();
    assert(base.subrange(0, p).push(m).to_multiset() == base.subrange(0, p).to_multiset().insert(m));
    assert(base =~= base.subrange(0, p) + base.subrange(p, base.len() as int));
    vstd::seq_lib::lemma_multiset_commutative(base.subrange(0, p), base.subrange(p, base.len() as int));
    assert(appended(s, m).to_multiset() =~= base.to_multiset().insert(m));
}

/// The bounded, persisted history log.
pub struct History {
    pub history: Vec<TextureData>,
}

impl View for History {
    type V = Seq<RecordModel>;

    open spec fn view(&self) -> Seq<RecordModel> {
        models(self.history@)
    }
}

impl History {
    /// A log is well formed when it is within its bound, sorted ascending by
    /// timestamp, and every record has the fixed field sizes.
    pub open spec fn wf(&self) -> bool {
        &&& self@.len() <= MAX_HISTORY
        &&& sorted_by_timestamp(self@)
        &&& forall|i: int| 0 <= i < self@.len() ==> wf_record(#[trigger] self@[i])
    }

    /// The empty log.
    pub fn new() -> (r: History)
        ensures
            r@ == Seq::<RecordModel>::empty(),
            r.wf(),
    {
        let r = History { history: Vec::new() };
        proof {
            assert(r@ =~= Seq::<RecordModel>::empty());
        }
        r
    }

    /// How many records the log holds.
    pub fn len(&self) -> (n: usize)
        ensures
            n == self@.len(),
    {
        self.history.len()
    }

    /// Appends one record: evicts the front entry if the log is full, then
    /// places the record after every entry with a timestamp not greater.
    pub fn append(&mut self, rec: TextureData)
        requires
            old(self).wf(),
            wf_record(rec@),
        ensures
            final(self).wf(),
            final(self)@ == appended(old(self)@, rec@),
    {
        proof {
            lemma_append_keeps_bound_and_order(self@, rec@);
        }
        let ghost s0 = self@;
        if self.history.len() >= MAX_HISTORY {
            self.history.remove(0);
            proof {
                assert(self@ =~= s0.drop_first());
            }
        }
        let ghost base = self@;
        proof {
            assert(base == evicted(s0));
            lemma_insert_position_sorted(base, rec@.timestamp);
        }
        let mut j: usize = 0;
        let n = self.history.len();
        while j < n && self.history[j].timestamp <= rec.timestamp
            invariant
                0 <= j <= n,
                n == self.history@.len(),
                self@ == base,
                forall|i: int| 0 <= i < j ==> base[i].timestamp <= rec@.timestamp,
            decreases n - j,
        {
            j = j + 1;
        }
        proof {
            lemma_first_larger_is_insert_position(base, rec@.timestamp, j as int);
        }
        self.history.insert(j, rec);
        proof {
            assert(self@ =~= base.insert(j as int, rec@));
        }
    }

    /// Borrows the records, oldest timestamp first.
    pub fn records(&self) -> (r: &Vec<TextureData>)
        ensures
            models(r@) == self@,
    {
        &self.history
    }

    /// The serialized snapshot of the whole log, as persisted and as sent to
    /// a catching-up client.
    pub fn encoded(&self) -> (r: Vec<u8>)
        requires
            self.wf(),
        ensures
            r@ == history_bytes(self@),
    {
        proof {
            assert forall|i: int| 0 <= i < self.history@.len() implies wf_record(
                #[trigger] self.history@[i]@,
            ) by {
                assert(self@[i] == self.history@[i]@);
            }
        }
        encode_history(&self.history)
    }

    /// Rebuilds a log from a persisted snapshot. `None` exactly on byte
    /// strings that are not a snapshot of a well-formed log.
    pub fn from_bytes(b: &Vec<u8>) -> (r: Option<History>)
        ensures
            r.is_some() <==> loadable(b@),
            r matches Some(h) ==> {
                &&& h.wf()
                &&& h@ == parse_history(b@)
            },
    {
        let records = match decode_history(b) {
            Some(v) => v,
            None => {
                return None;
            },
        };
        if records.len() > MAX_HISTORY {
            return None;
        }
        let mut i: usize = 1;
        while i < records.len()
            invariant
                1 <= i,
                models(records@) == parse_history(b@),
                forall|p: int, q: int|
                    0 <= p <= q < i && q < models(records@).len() ==> models(
                        records@,
                    )[p].timestamp <= models(records@)[q].timestamp,
            decreases records@.len() - i,
        {
            let ghost ms = models(records@);
            proof {
                assert(ms[i - 1] == records@[i - 1]@);
                assert(ms[i as int] == records@[i as int]@);
            }
            if records[i - 1].timestamp > records[i].timestamp {
                proof {
                    assert(!sorted_by_timestamp(ms)) by {
                        if sorted_by_timestamp(ms) {
                            assert(ms[i - 1].timestamp <= ms[i as int].timestamp);
                        }
                    }
                }
                return None;
            }
            proof {
                assert forall|p: int, q: int|
                    0 <= p <= q < i + 1 && q < ms.len() implies ms[p].timestamp
                    <= ms[q].timestamp by {
                    if q == i && p < q {
                        assert(ms[p].timestamp <= ms[i - 1].timestamp);
                        assert(ms[i - 1].timestamp <= ms[i as int].timestamp);
                    }
                }
            }
            i = i + 1;
        }
        let h = History { history: records };
        proof {
            assert(sorted_by_timestamp(h@));
        }
        Some(h)
    }
}

/// A byte string from which a log may be rebuilt: a well-formed snapshot of
/// at most the bound's worth of records, sorted ascending by timestamp.
pub open spec fn loadable(b: Seq<u8>) -> bool {
    &&& valid_history_frame(b)
    &&& parse_history(b).len() <= MAX_HISTORY
    &&& sorted_by_timestamp(parse_history(b))
}

proof fn lemma_first_larger_is_insert_position(s: Seq<RecordModel>, t: u128, j: int)
    requires
        0 <= j <= s.len(),
        forall|i: int| 0 <= i < j ==> s[i].timestamp <= t,
        j < s.len() ==> s[j].timestamp > t,
    ensures
        insert_position(s, t) == j,
    decreases j,
{
    if j == 0 {
    } else {
        assert(s[0].timestamp <= t);
        lemma_first_larger_is_insert_position(s.drop_first(), t, j - 1);
    }
}

/// Law: persisting a well-formed log and reading the snapshot back yields
/// the same records in the same order.
pub proof fn lemma_persist_round_trip(s: Seq<RecordModel>)
    requires
        s.len() <= MAX_HISTORY,
        sorted_by_timestamp(s),
        forall|i: int| 0 <= i < s.len() ==> wf_record(#[trigger] s[i]),
    ensures
        loadable(history_bytes(s)),
        parse_history(history_bytes(s)) == s,
{
    lemma_history_round_trip(s);
}

} // verus!
