//! Laws of the server over whole event traces.
//!
//! The server's step functions are folded over a sequence of events here, so
//! that promises such as "a client that never confirms never becomes synced
//! and never receives a broadcast" and "five strikes remove a session for
//! good" can be stated and proved once for every trace.

use vstd::prelude::*;
use crate::codec::CONTROL_FRAME_SIZE;
use crate::codec::DATA_FRAME_SIZE;
use crate::codec::history_bytes;
use crate::codec::lemma_record_extract;
use crate::codec::parse_record;
use crate::codec::valid_record_frame;
use crate::codec::parse_info;
use crate::codec::valid_info_frame;
use crate::record::InfoData;
use crate::record::InfoMsg;
use crate::codec::info_bytes;
use crate::log::appended;
use crate::log::evicted;
use crate::log::insert_position;
use crate::log::lemma_append_keeps_bound_and_order;
use crate::log::lemma_insert_position_bounds;
use crate::record::RecordModel;
use crate::record::wf_record;
use crate::registry::MAX_STRIKES;
use crate::registry::PhaseModel;
use crate::registry::SessionModel;
use crate::registry::has_id;
use crate::registry::idx_of;
use crate::registry::lemma_idx_unique;
use crate::registry::lemma_synced_ids_are_synced;
use crate::registry::session_of;
use crate::registry::synced_ids_of;
use crate::registry::wf_sessions;
use crate::server::ActionModel;
use crate::server::ServerModel;
use crate::server::remove_session;
use crate::server::step_connect;
use crate::server::step_control;
use crate::server::step_data;
use crate::server::step_error;
use crate::server::step_frame;
use crate::server::update_session;
use crate::server::wf_model;

verus! {

/// One thing that can happen to the server: a connection is accepted, a
/// frame arrives from a session, or a read on a session's socket fails.
pub ghost enum EventModel {
    Connect,
    Frame(u64, Seq<u8>),
    ReadError(u64, bool),
}

/// The server stepped by one event. Events that name a session the registry
/// does not hold (it already disconnected) change nothing.
pub open spec fn step_event(m: ServerModel, ev: EventModel) -> (ServerModel, Seq<ActionModel>) {
    match ev {
        EventModel::Connect => (step_connect(m).0, Seq::empty()),
        EventModel::Frame(id, frame) => if has_id(m.sessions, id) {
            step_frame(m, id, frame)
        } else {
            (m, Seq::empty())
        },
        EventModel::ReadError(id, clean_close) => if has_id(m.sessions, id) {
            (
                step_error(m, id, clean_close).0,
                if step_error(m, id, clean_close).1 {
                    seq![ActionModel::Disconnect]
                } else {
                    Seq::empty()
                },
            )
        } else {
            (m, Seq::empty())
        },
    }
}

/// The server after a whole trace of events.
pub open spec fn run(m: ServerModel, evs: Seq<EventModel>) -> ServerModel
    decreases evs.len(),
{
    if evs.len() == 0 {
        m
    } else {
        run(step_event(m, evs[0]).0, evs.drop_first())
    }
}

/// Whether an action writes broadcast bytes to this session.
pub open spec fn targets(a: ActionModel, id: u64) -> bool {
    match a {
        ActionModel::Broadcast(sid, _) => sid == id,
        _ => false,
    }
}

pub open spec fn no_broadcast_to(actions: Seq<ActionModel>, id: u64) -> bool {
    forall|k: int| 0 <= k < actions.len() ==> !targets(#[trigger] actions[k], id)
}

/// Whether this session is either gone or not yet synced.
pub open spec fn unsynced_or_absent(m: ServerModel, id: u64) -> bool {
    forall|i: int|
        0 <= i < m.sessions.len() && (#[trigger] m.sessions[i]).0 == id
            ==> !m.sessions[i].1.history_synced
}

/// Whether the event is a confirmation control frame sent by this session.
pub open spec fn is_confirm_from(ev: EventModel, id: u64) -> bool {
    match ev {
        EventModel::Frame(sid, f) => {
            &&& sid == id
            &&& f.len() == CONTROL_FRAME_SIZE
            &&& valid_info_frame(f)
            &&& parse_info(f).msg == InfoMsg::ConfirmReceivedHistory
        },
        _ => false,
    }
}

pub proof fn lemma_update_session_facts(m: ServerModel, id: u64, sess: SessionModel)
    requires
        wf_sessions(m.sessions, m.next_id),
        has_id(m.sessions, id),
    ensures
        ({
            let m2 = update_session(m, id, sess);
            &&& m2.sessions.len() == m.sessions.len()
            &&& wf_sessions(m2.sessions, m2.next_id)
            &&& has_id(m2.sessions, id)
            &&& session_of(m2.sessions, id) == sess
            &&& forall|i: int|
                0 <= i < m.sessions.len() && i != idx_of(m.sessions, id)
                    ==> m2.sessions[i] == m.sessions[i]
            &&& m2.sessions[idx_of(m.sessions, id)] == (id, sess)
            &&& m2.log == m.log
            &&& m2.next_id == m.next_id
        }),
{
    let i = idx_of(m.sessions, id);
    let m2 = update_session(m, id, sess);
    assert(m2.sessions[i].0 == id);
    assert forall|p: int, q: int| 0 <= p < q < m2.sessions.len() implies (
    #[trigger] m2.sessions[p].0) != (#[trigger] m2.sessions[q].0) by {
        assert(m.sessions[p].0 != m.sessions[q].0);
    }
    assert forall|p: int| 0 <= p < m2.sessions.len() implies (#[trigger] m2.sessions[p].0)
        < m2.next_id by {
        assert(m.sessions[p].0 < m.next_id);
    }
    lemma_idx_unique(m2.sessions, m2.next_id, i, id);
}

pub proof fn lemma_remove_session_facts(m: ServerModel, id: u64)
    requires
        wf_sessions(m.sessions, m.next_id),
        has_id(m.sessions, id),
    ensures
        ({
            let m2 = remove_session(m, id);
            &&& m2.sessions.len() == m.sessions.len() - 1
            &&& wf_sessions(m2.sessions, m2.next_id)
            &&& !has_id(m2.sessions, id)
            &&& forall|i: int|
                0 <= i < m2.sessions.len() ==> (exists|j: int|
                    0 <= j < m.sessions.len() && #[trigger] m2.sessions[i] == m.sessions[j])
            &&& m2.log == m.log
            &&& m2.next_id == m.next_id
        }),
{
    let i = idx_of(m.sessions, id);
    lemma_idx_unique(m.sessions, m.next_id, i, id);
    let m2 = remove_session(m, id);
    assert forall|p: int| 0 <= p < m2.sessions.len() implies (exists|j: int|
        0 <= j < m.sessions.len() && #[trigger] m2.sessions[p] == m.sessions[j]) by {
        if p < i {
            assert(m2.sessions[p] == m.sessions[p]);
        } else {
            assert(m2.sessions[p] == m.sessions[p + 1]);
        }
    }
    assert forall|p: int, q: int| 0 <= p < q < m2.sessions.len() implies (
    #[trigger] m2.sessions[p].0) != (#[trigger] m2.sessions[q].0) by {
        if q < i {
            assert(m2.sessions[p] == m.sessions[p] && m2.sessions[q] == m.sessions[q]);
        } else if p < i {
            assert(m2.sessions[p] == m.sessions[p] && m2.sessions[q] == m.sessions[q + 1]);
        } else {
            assert(m2.sessions[p] == m.sessions[p + 1] && m2.sessions[q] == m.sessions[q + 1]);
        }
    }
    assert forall|p: int| 0 <= p < m2.sessions.len() implies (#[trigger] m2.sessions[p].0)
        < m2.next_id by {
        if p < i {
            assert(m2.sessions[p] == m.sessions[p]);
        } else {
            assert(m2.sessions[p] == m.sessions[p + 1]);
        }
    }
    assert forall|p: int| 0 <= p < m2.sessions.len() implies (#[trigger] m2.sessions[p].0)
        != id by {
        if p < i {
            assert(m2.sessions[p] == m.sessions[p]);
            if m.sessions[p].0 == id {
                lemma_idx_unique(m.sessions, m.next_id, p, id);
            }
        } else {
            assert(m2.sessions[p] == m.sessions[p + 1]);
            if m.sessions[p + 1].0 == id {
                lemma_idx_unique(m.sessions, m.next_id, p + 1, id);
            }
        }
    }
}

/// Every step of the server keeps the server well formed.
pub proof fn lemma_step_event_preserves_wf(m: ServerModel, ev: EventModel)
    requires
        wf_model(m),
    ensures
        wf_model(step_event(m, ev).0),
        m.next_id <= step_event(m, ev).0.next_id,
{
    let m2 = step_event(m, ev).0;
    match ev {
        EventModel::Connect => {
            if m.next_id != u64::MAX {
                assert forall|p: int, q: int| 0 <= p < q < m2.sessions.len() implies (
                #[trigger] m2.sessions[p].0) != (#[trigger] m2.sessions[q].0) by {
                    if q < m.sessions.len() {
                        assert(m.sessions[p].0 != m.sessions[q].0);
                    } else {
                        assert(m.sessions[p].0 < m.next_id);
                    }
                }
                assert(forall|p: int|
                    0 <= p < m2.sessions.len() ==> (#[trigger] m2.sessions[p].1).error_strikes
                        <= MAX_STRIKES);
            }
        },
        EventModel::Frame(id, frame) => {
            if has_id(m.sessions, id) {
                lemma_step_frame_preserves_wf(m, id, frame);
            }
        },
        EventModel::ReadError(id, clean_close) => {
            if has_id(m.sessions, id) {
                if clean_close {
                    lemma_remove_session_facts(m, id);
                } else {
                    let sess = session_of(m.sessions, id);
                    if sess.error_strikes + 1 > MAX_STRIKES {
                        lemma_remove_session_facts(m, id);
                    } else {
                        let sess2 = SessionModel {
                            error_strikes: (sess.error_strikes + 1) as u8,
                            ..sess
                        };
                        lemma_update_session_facts(m, id, sess2);
                        let i = idx_of(m.sessions, id);
                        assert forall|p: int| 0 <= p < m2.sessions.len() implies (
                        #[trigger] m2.sessions[p].1).error_strikes <= MAX_STRIKES by {
                            if p != i {
                                assert(m2.sessions[p] == m.sessions[p]);
                            }
                        }
                    }
                }
            }
        },
    }
}

pub proof fn lemma_step_frame_preserves_wf(m: ServerModel, id: u64, frame: Seq<u8>)
    requires
        wf_model(m),
        has_id(m.sessions, id),
    ensures
        wf_model(step_frame(m, id, frame).0),
        step_frame(m, id, frame).0.next_id == m.next_id,
{
    let m2 = step_frame(m, id, frame).0;
    let sess = session_of(m.sessions, id);
    let i = idx_of(m.sessions, id);
    if frame.len() == CONTROL_FRAME_SIZE {
        if valid_info_frame(frame) {
            lemma_step_control_preserves_wf(m, id, parse_info(frame).msg);
        } else {
            lemma_remove_session_facts(m, id);
        }
    } else if frame.len() == DATA_FRAME_SIZE {
        if valid_record_frame(frame) {
            let rec = parse_record(frame);
            let m1 = update_session(
                m,
                id,
                SessionModel { phase: PhaseModel::AwaitLengthRequest, ..sess },
            );
            lemma_update_session_facts(
                m,
                id,
                SessionModel { phase: PhaseModel::AwaitLengthRequest, ..sess },
            );
            assert forall|p: int| 0 <= p < m1.sessions.len() implies (
            #[trigger] m1.sessions[p].1).error_strikes <= MAX_STRIKES by {
                if p != i {
                    assert(m1.sessions[p] == m.sessions[p]);
                }
            }
            if !rec.request_history_length {
                lemma_record_extract(frame);
                lemma_append_keeps_bound_and_order(m1.log, rec);
                lemma_appended_wf_records(m1.log, rec);
            }
        } else {
            lemma_remove_session_facts(m, id);
        }
    }
}

/// The session a control step leaves the sender with.
pub open spec fn control_session_update(m: ServerModel, id: u64, msg: InfoMsg) -> SessionModel {
    let sess = session_of(m.sessions, id);
    match (sess.phase, msg) {
        (PhaseModel::AwaitLengthRequest, InfoMsg::RequestHistoryLength) => SessionModel {
            phase: PhaseModel::AwaitHistoryRequest(history_bytes(m.log)),
            ..sess
        },
        (PhaseModel::AwaitHistoryRequest(p), InfoMsg::RequestHistory) => SessionModel {
            phase: PhaseModel::AwaitConfirm,
            ..sess
        },
        (PhaseModel::AwaitConfirm, InfoMsg::ConfirmReceivedHistory) => SessionModel {
            history_synced: true,
            phase: PhaseModel::AwaitLengthRequest,
            ..sess
        },
        _ => SessionModel { phase: PhaseModel::AwaitLengthRequest, ..sess },
    }
}

/// A control step only rewrites the sender's own session, and never touches
/// its strike count.
pub proof fn lemma_step_control_is_update(m: ServerModel, id: u64, msg: InfoMsg)
    requires
        wf_model(m),
        has_id(m.sessions, id),
    ensures
        step_control(m, id, msg).0 == update_session(m, id, control_session_update(m, id, msg)),
        control_session_update(m, id, msg).error_strikes == session_of(
            m.sessions,
            id,
        ).error_strikes,
{
}

pub proof fn lemma_step_control_preserves_wf(m: ServerModel, id: u64, msg: InfoMsg)
    requires
        wf_model(m),
        has_id(m.sessions, id),
    ensures
        wf_model(step_control(m, id, msg).0),
        step_control(m, id, msg).0.next_id == m.next_id,
        step_control(m, id, msg).0.log == m.log,
{
    let i = idx_of(m.sessions, id);
    let m2 = step_control(m, id, msg).0;
    lemma_step_control_is_update(m, id, msg);
    let upd = control_session_update(m, id, msg);
    lemma_update_session_facts(m, id, upd);
    assert forall|p: int| 0 <= p < m2.sessions.len() implies (
    #[trigger] m2.sessions[p].1).error_strikes <= MAX_STRIKES by {
        if p != i {
            assert(m2.sessions[p] == m.sessions[p]);
        } else {
            assert(m2.sessions[p] == (id, upd));
        }
    }
}

pub proof fn lemma_appended_wf_records(s: Seq<RecordModel>, rec: RecordModel)
    requires
        forall|i: int| 0 <= i < s.len() ==> wf_record(#[trigger] s[i]),
        wf_record(rec),
    ensures
        forall|i: int|
            0 <= i < appended(s, rec).len() ==> wf_record(#[trigger] appended(s, rec)[i]),
{
    let base = evicted(s);
    let p = insert_position(base, rec.timestamp);
    lemma_insert_position_bounds(base, rec.timestamp);
    let r = appended(s, rec);
    assert forall|i: int| 0 <= i < r.len() implies wf_record(#[trigger] r[i]) by {
        if i < p {
            assert(r[i] == base[i]);
        } else if i == p {
            assert(r[i] == rec);
        } else {
            assert(r[i] == base[i - 1]);
        }
    }
}

/// Law (one step): a step that is not this session's own confirmation
/// leaves the session unsynced (or absent) and sends it no broadcast bytes.
pub proof fn lemma_no_sync_without_confirm(m: ServerModel, ev: EventModel, id: u64)
    requires
        wf_model(m),
        unsynced_or_absent(m, id),
        !is_confirm_from(ev, id),
    ensures
        unsynced_or_absent(step_event(m, ev).0, id),
        no_broadcast_to(step_event(m, ev).1, id),
{
    let m2 = step_event(m, ev).0;
    match ev {
        EventModel::Connect => {
            if m.next_id != u64::MAX {
                assert forall|i: int|
                    0 <= i < m2.sessions.len() && (#[trigger] m2.sessions[i]).0 == id implies
                    !m2.sessions[i].1.history_synced by {
                    if i < m.sessions.len() {
                        assert(m2.sessions[i] == m.sessions[i]);
                    }
                }
            }
        },
        EventModel::Frame(sid, frame) => {
            if has_id(m.sessions, sid) {
                lemma_frame_no_sync(m, sid, frame, id, is_confirm_from(ev, id));
            }
        },
        EventModel::ReadError(sid, clean_close) => {
            if has_id(m.sessions, sid) {
                if clean_close || session_of(m.sessions, sid).error_strikes + 1 > MAX_STRIKES {
                    lemma_remove_session_facts(m, sid);
                    lemma_removed_keeps_unsynced(m, sid, id);
                } else {
                    let sess = session_of(m.sessions, sid);
                    let sess2 = SessionModel {
                        error_strikes: (sess.error_strikes + 1) as u8,
                        ..sess
                    };
                    lemma_update_session_facts(m, sid, sess2);
                    lemma_updated_keeps_unsynced(m, sid, sess2, id);
                }
            }
        },
    }
}

/// Removing any session cannot make another one synced.
proof fn lemma_removed_keeps_unsynced(m: ServerModel, sid: u64, id: u64)
    requires
        wf_sessions(m.sessions, m.next_id),
        has_id(m.sessions, sid),
        unsynced_or_absent(m, id),
    ensures
        unsynced_or_absent(remove_session(m, sid), id),
{
    lemma_remove_session_facts(m, sid);
    let m2 = remove_session(m, sid);
    assert forall|i: int|
        0 <= i < m2.sessions.len() && (#[trigger] m2.sessions[i]).0 == id implies
        !m2.sessions[i].1.history_synced by {
        let j = choose|j: int| 0 <= j < m.sessions.len() && m2.sessions[i] == m.sessions[j];
        assert(m.sessions[j].0 == id);
    }
}

/// Rewriting one session with an unsynced replacement (or any replacement of
/// a different session) keeps this session unsynced or absent.
proof fn lemma_updated_keeps_unsynced(m: ServerModel, sid: u64, sess2: SessionModel, id: u64)
    requires
        wf_sessions(m.sessions, m.next_id),
        has_id(m.sessions, sid),
        unsynced_or_absent(m, id),
        sid == id ==> !sess2.history_synced,
    ensures
        unsynced_or_absent(update_session(m, sid, sess2), id),
{
    lemma_update_session_facts(m, sid, sess2);
    let m2 = update_session(m, sid, sess2);
    let j = idx_of(m.sessions, sid);
    assert forall|i: int|
        0 <= i < m2.sessions.len() && (#[trigger] m2.sessions[i]).0 == id implies
        !m2.sessions[i].1.history_synced by {
        if i != j {
            assert(m2.sessions[i] == m.sessions[i]);
        }
    }
}

proof fn lemma_frame_no_sync(m: ServerModel, sid: u64, frame: Seq<u8>, id: u64, confirm: bool)
    requires
        wf_model(m),
        has_id(m.sessions, sid),
        unsynced_or_absent(m, id),
        confirm == (sid == id && frame.len() == CONTROL_FRAME_SIZE && valid_info_frame(frame)
            && parse_info(frame).msg == InfoMsg::ConfirmReceivedHistory),
        !confirm,
    ensures
        unsynced_or_absent(step_frame(m, sid, frame).0, id),
        no_broadcast_to(step_frame(m, sid, frame).1, id),
{
    let sess = session_of(m.sessions, sid);
    if frame.len() == CONTROL_FRAME_SIZE {
        if valid_info_frame(frame) {
            let msg = parse_info(frame).msg;
            lemma_step_control_is_update(m, sid, msg);
            let upd = control_session_update(m, sid, msg);
            if sid == id {
                assert(m.sessions[idx_of(m.sessions, id)].0 == id);
                assert(!sess.history_synced);
                assert(msg != InfoMsg::ConfirmReceivedHistory);
                assert(!upd.history_synced);
            }
            lemma_updated_keeps_unsynced(m, sid, upd, id);
        } else {
            lemma_removed_keeps_unsynced(m, sid, id);
        }
    } else if frame.len() == DATA_FRAME_SIZE {
        if valid_record_frame(frame) {
            let rec = parse_record(frame);
            let sess2 = SessionModel { phase: PhaseModel::AwaitLengthRequest, ..sess };
            let m1 = update_session(m, sid, sess2);
            lemma_updated_keeps_unsynced(m, sid, sess2, id);
            if !rec.request_history_length {
                let acts = step_data(m, sid, rec, frame).1;
                let bc = synced_ids_of(m1.sessions).map_values(
                    |s: u64| ActionModel::Broadcast(s, frame),
                );
                assert forall|k: int| 0 <= k < acts.len() implies !targets(
                    #[trigger] acts[k],
                    id,
                ) by {
                    if k >= 1 {
                        assert(acts[k] == bc[k - 1]);
                        if targets(acts[k], id) {
                            assert(synced_ids_of(m1.sessions)[k - 1] == id);
                            assert(synced_ids_of(m1.sessions).contains(id));
                            lemma_synced_ids_are_synced(m1.sessions, id);
                        }
                    }
                }
            }
        } else {
            lemma_removed_keeps_unsynced(m, sid, id);
        }
    }
}

/// Law: a client that never sends the confirming control record — it stopped
/// after the length request, or anywhere else short of the final step —
/// never becomes synced and is the target of no broadcast, over any trace.
pub proof fn lemma_unsynced_client_receives_nothing(
    m: ServerModel,
    evs: Seq<EventModel>,
    id: u64,
)
    requires
        wf_model(m),
        unsynced_or_absent(m, id),
        forall|k: int| 0 <= k < evs.len() ==> !is_confirm_from(#[trigger] evs[k], id),
    ensures
        unsynced_or_absent(run(m, evs), id),
        forall|k: int|
            0 <= k < evs.len() ==> no_broadcast_to(
                step_event(run(m, evs.take(k)), #[trigger] evs[k]).1,
                id,
            ),
    decreases evs.len(),
{
    if evs.len() > 0 {
        let m1 = step_event(m, evs[0]).0;
        lemma_step_event_preserves_wf(m, evs[0]);
        lemma_no_sync_without_confirm(m, evs[0], id);
        let rest = evs.drop_first();
        assert forall|k: int| 0 <= k < rest.len() implies !is_confirm_from(
            #[trigger] rest[k],
            id,
        ) by {
            assert(rest[k] == evs[k + 1]);
        }
        lemma_unsynced_client_receives_nothing(m1, rest, id);
        assert forall|k: int| 0 <= k < evs.len() implies no_broadcast_to(
            step_event(run(m, evs.take(k)), #[trigger] evs[k]).1,
            id,
        ) by {
            if k == 0 {
                assert(evs.take(0) =~= Seq::<EventModel>::empty());
                assert(run(m, evs.take(0)) == m);
            } else {
                let t = evs.take(k);
                assert(t[0] == evs[0]);
                assert(t.drop_first() =~= rest.take(k - 1));
                assert(run(m, t) == run(m1, rest.take(k - 1)));
                assert(rest[k - 1] == evs[k]);
                assert(no_broadcast_to(
                    step_event(run(m1, rest.take(k - 1)), rest[k - 1]).1,
                    id,
                ));
            }
        }
    }
}

/// Law (one step): a step never resurrects a removed session, never hands
/// its id out again, and sends it no broadcast bytes.
pub proof fn lemma_absent_step(m: ServerModel, ev: EventModel, id: u64)
    requires
        wf_model(m),
        !has_id(m.sessions, id),
        id < m.next_id,
    ensures
        !has_id(step_event(m, ev).0.sessions, id),
        id < step_event(m, ev).0.next_id,
        no_broadcast_to(step_event(m, ev).1, id),
{
    let m2 = step_event(m, ev).0;
    match ev {
        EventModel::Connect => {
            if m.next_id != u64::MAX {
                assert forall|i: int| 0 <= i < m2.sessions.len() implies (
                #[trigger] m2.sessions[i]).0 != id by {
                    if i < m.sessions.len() {
                        assert(m2.sessions[i] == m.sessions[i]);
                        assert(has_id(m.sessions, id) <== m.sessions[i].0 == id);
                    }
                }
            }
        },
        EventModel::Frame(sid, frame) => {
            if has_id(m.sessions, sid) {
                assert(sid != id);
                assert(unsynced_or_absent(m, id));
                lemma_frame_no_sync(m, sid, frame, id, false);
                lemma_frame_keeps_absent(m, sid, frame, id);
            }
        },
        EventModel::ReadError(sid, clean_close) => {
            if has_id(m.sessions, sid) {
                assert(sid != id);
                if clean_close || session_of(m.sessions, sid).error_strikes + 1 > MAX_STRIKES {
                    lemma_remove_session_facts(m, sid);
                    assert forall|i: int| 0 <= i < m2.sessions.len() implies (
                    #[trigger] m2.sessions[i]).0 != id by {
                        let j = choose|j: int|
                            0 <= j < m.sessions.len() && m2.sessions[i] == m.sessions[j];
                        assert(has_id(m.sessions, id) <== m.sessions[j].0 == id);
                    }
                } else {
                    let sess = session_of(m.sessions, sid);
                    let sess2 = SessionModel {
                        error_strikes: (sess.error_strikes + 1) as u8,
                        ..sess
                    };
                    lemma_update_session_facts(m, sid, sess2);
                    lemma_updated_keeps_absent(m, sid, sess2, id);
                }
            }
        },
    }
}

proof fn lemma_updated_keeps_absent(m: ServerModel, sid: u64, sess2: SessionModel, id: u64)
    requires
        wf_sessions(m.sessions, m.next_id),
        has_id(m.sessions, sid),
        !has_id(m.sessions, id),
        sid != id,
    ensures
        !has_id(update_session(m, sid, sess2).sessions, id),
{
    lemma_update_session_facts(m, sid, sess2);
    let m2 = update_session(m, sid, sess2);
    let j = idx_of(m.sessions, sid);
    assert forall|i: int| 0 <= i < m2.sessions.len() implies (#[trigger] m2.sessions[i]).0
        != id by {
        if i != j {
            assert(m2.sessions[i] == m.sessions[i]);
            assert(has_id(m.sessions, id) <== m.sessions[i].0 == id);
        }
    }
}

proof fn lemma_frame_keeps_absent(m: ServerModel, sid: u64, frame: Seq<u8>, id: u64)
    requires
        wf_model(m),
        has_id(m.sessions, sid),
        !has_id(m.sessions, id),
        sid != id,
    ensures
        !has_id(step_frame(m, sid, frame).0.sessions, id),
{
    let sess = session_of(m.sessions, sid);
    if frame.len() == CONTROL_FRAME_SIZE {
        if valid_info_frame(frame) {
            lemma_step_control_is_update(m, sid, parse_info(frame).msg);
            lemma_updated_keeps_absent(
                m,
                sid,
                control_session_update(m, sid, parse_info(frame).msg),
                id,
            );
        } else {
            lemma_remove_session_facts(m, sid);
            lemma_removed_keeps_absent(m, sid, id);
        }
    } else if frame.len() == DATA_FRAME_SIZE {
        if valid_record_frame(frame) {
            let sess2 = SessionModel { phase: PhaseModel::AwaitLengthRequest, ..sess };
            lemma_updated_keeps_absent(m, sid, sess2, id);
        } else {
            lemma_removed_keeps_absent(m, sid, id);
        }
    }
}

proof fn lemma_removed_keeps_absent(m: ServerModel, sid: u64, id: u64)
    requires
        wf_sessions(m.sessions, m.next_id),
        has_id(m.sessions, sid),
        !has_id(m.sessions, id),
    ensures
        !has_id(remove_session(m, sid).sessions, id),
{
    lemma_remove_session_facts(m, sid);
    let m2 = remove_session(m, sid);
    assert forall|i: int| 0 <= i < m2.sessions.len() implies (#[trigger] m2.sessions[i]).0
        != id by {
        let j = choose|j: int| 0 <= j < m.sessions.len() && m2.sessions[i] == m.sessions[j];
        assert(has_id(m.sessions, id) <== m.sessions[j].0 == id);
    }
}

/// Law: once a session has been removed, no later trace of events brings it
/// back, and no broadcast ever targets it again.
pub proof fn lemma_removed_session_receives_nothing(
    m: ServerModel,
    evs: Seq<EventModel>,
    id: u64,
)
    requires
        wf_model(m),
        !has_id(m.sessions, id),
        id < m.next_id,
    ensures
        !has_id(run(m, evs).sessions, id),
        forall|k: int|
            0 <= k < evs.len() ==> no_broadcast_to(
                step_event(run(m, evs.take(k)), #[trigger] evs[k]).1,
                id,
            ),
    decreases evs.len(),
{
    if evs.len() > 0 {
        let m1 = step_event(m, evs[0]).0;
        lemma_step_event_preserves_wf(m, evs[0]);
        lemma_absent_step(m, evs[0], id);
        let rest = evs.drop_first();
        lemma_removed_session_receives_nothing(m1, rest, id);
        assert forall|k: int| 0 <= k < evs.len() implies no_broadcast_to(
            step_event(run(m, evs.take(k)), #[trigger] evs[k]).1,
            id,
        ) by {
            if k == 0 {
                assert(evs.take(0) =~= Seq::<EventModel>::empty());
                assert(run(m, evs.take(0)) == m);
            } else {
                let t = evs.take(k);
                assert(t[0] == evs[0]);
                assert(t.drop_first() =~= rest.take(k - 1));
                assert(run(m, t) == run(m1, rest.take(k - 1)));
                assert(rest[k - 1] == evs[k]);
                assert(no_broadcast_to(
                    step_event(run(m1, rest.take(k - 1)), rest[k - 1]).1,
                    id,
                ));
            }
        }
    }
}

/// Five read failures on this session, none a clean close.
pub open spec fn five_read_errors(id: u64) -> Seq<EventModel> {
    seq![
        EventModel::ReadError(id, false),
        EventModel::ReadError(id, false),
        EventModel::ReadError(id, false),
        EventModel::ReadError(id, false),
        EventModel::ReadError(id, false),
    ]
}

/// One non-close read failure: below the strike bound it only counts, at the
/// bound it removes the session.
pub proof fn lemma_error_step_counts(m: ServerModel, id: u64)
    requires
        wf_model(m),
        has_id(m.sessions, id),
    ensures
        wf_model(step_error(m, id, false).0),
        step_error(m, id, false).0.next_id == m.next_id,
        session_of(m.sessions, id).error_strikes < MAX_STRIKES ==> {
            &&& has_id(step_error(m, id, false).0.sessions, id)
            &&& session_of(step_error(m, id, false).0.sessions, id).error_strikes == session_of(
                m.sessions,
                id,
            ).error_strikes + 1
        },
        session_of(m.sessions, id).error_strikes >= MAX_STRIKES ==> !has_id(
            step_error(m, id, false).0.sessions,
            id,
        ),
{
    lemma_step_event_preserves_wf(m, EventModel::ReadError(id, false));
    let sess = session_of(m.sessions, id);
    if sess.error_strikes + 1 > MAX_STRIKES {
        lemma_remove_session_facts(m, id);
    } else {
        let sess2 = SessionModel { error_strikes: (sess.error_strikes + 1) as u8, ..sess };
        lemma_update_session_facts(m, id, sess2);
    }
}

/// Law: a session that accumulates five read failures (none a clean close)
/// starting from a clean record is removed from the registry.
pub proof fn lemma_five_strikes_remove(m: ServerModel, id: u64)
    requires
        wf_model(m),
        has_id(m.sessions, id),
        session_of(m.sessions, id).error_strikes == 0,
    ensures
        !has_id(run(m, five_read_errors(id)).sessions, id),
        wf_model(run(m, five_read_errors(id))),
        id < run(m, five_read_errors(id)).next_id,
{
    let e = EventModel::ReadError(id, false);
    let evs = five_read_errors(id);
    let m1 = step_event(m, e).0;
    lemma_error_step_counts(m, id);
    let m2 = step_event(m1, e).0;
    lemma_error_step_counts(m1, id);
    let m3 = step_event(m2, e).0;
    lemma_error_step_counts(m2, id);
    let m4 = step_event(m3, e).0;
    lemma_error_step_counts(m3, id);
    let m5 = step_event(m4, e).0;
    lemma_error_step_counts(m4, id);
    assert(!has_id(m5.sessions, id));
    assert(m.sessions[idx_of(m.sessions, id)].0 == id && m.sessions[idx_of(
        m.sessions,
        id,
    )].0 < m.next_id);
    assert(evs[0] == e);
    assert(evs.drop_first() =~= seq![e, e, e, e]);
    assert(seq![e, e, e, e].drop_first() =~= seq![e, e, e]);
    assert(seq![e, e, e].drop_first() =~= seq![e, e]);
    assert(seq![e, e].drop_first() =~= seq![e]);
    assert(seq![e].drop_first() =~= Seq::<EventModel>::empty());
    assert(seq![e, e, e, e][0] == e && seq![e, e, e][0] == e && seq![e, e][0] == e && seq![e][0]
        == e);
    assert(run(m, evs) == run(m1, seq![e, e, e, e]));
    assert(run(m1, seq![e, e, e, e]) == run(m2, seq![e, e, e]));
    assert(run(m2, seq![e, e, e]) == run(m3, seq![e, e]));
    assert(run(m3, seq![e, e]) == run(m4, seq![e]));
    assert(run(m4, seq![e]) == run(m5, Seq::<EventModel>::empty()));
    assert(run(m5, Seq::<EventModel>::empty()) == m5);
}

/// Law: a session that stands at the start of the handshake and sends the
/// three control records in order — length request, history request,
/// confirmation — ends synced, and the server replies first with the
/// snapshot's byte size and then with exactly the snapshot it announced.
pub proof fn lemma_full_handshake_syncs(m: ServerModel, id: u64)
    requires
        wf_model(m),
        has_id(m.sessions, id),
        session_of(m.sessions, id).phase == PhaseModel::AwaitLengthRequest,
    ensures
        ({
            let pending = history_bytes(m.log);
            let s1 = step_control(m, id, InfoMsg::RequestHistoryLength);
            let s2 = step_control(s1.0, id, InfoMsg::RequestHistory);
            let s3 = step_control(s2.0, id, InfoMsg::ConfirmReceivedHistory);
            &&& s1.1 == seq![
                ActionModel::Reply(
                    info_bytes(
                        InfoData { msg: InfoMsg::HistoryLength, number: pending.len() as i32 },
                    ),
                ),
            ]
            &&& s2.1 == seq![ActionModel::Reply(pending)]
            &&& s3.1 == Seq::<ActionModel>::empty()
            &&& session_of(s3.0.sessions, id).history_synced
        }),
{
    let m1 = step_control(m, id, InfoMsg::RequestHistoryLength).0;
    lemma_step_control_is_update(m, id, InfoMsg::RequestHistoryLength);
    lemma_update_session_facts(m, id, control_session_update(m, id, InfoMsg::RequestHistoryLength));
    lemma_step_control_preserves_wf(m, id, InfoMsg::RequestHistoryLength);
    let m2 = step_control(m1, id, InfoMsg::RequestHistory).0;
    lemma_step_control_is_update(m1, id, InfoMsg::RequestHistory);
    lemma_update_session_facts(
        m1,
        id,
        control_session_update(m1, id, InfoMsg::RequestHistory),
    );
    lemma_step_control_preserves_wf(m1, id, InfoMsg::RequestHistory);
    lemma_step_control_is_update(m2, id, InfoMsg::ConfirmReceivedHistory);
    lemma_update_session_facts(
        m2,
        id,
        control_session_update(m2, id, InfoMsg::ConfirmReceivedHistory),
    );
}

} // verus!
