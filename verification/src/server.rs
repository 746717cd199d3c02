//! The server core: one state machine owning the history log and the
//! connection registry.
//!
//! Each session handler reads frames and failures off its own socket and
//! hands them here as events; the returned actions say what the handler must
//! write where (a reply, the snapshot file, a broadcast fan-out) and whether
//! the session is gone. Every decision — frame classification by byte
//! length, the catch-up handshake, eviction and ordering in the log, strike
//! accounting — is made in this module; the callers only move bytes.

use vstd::prelude::*;
use crate::codec::CONTROL_FRAME_SIZE;
use crate::codec::DATA_FRAME_SIZE;
use crate::codec::decode_info;
use crate::codec::decode_record;
use crate::codec::encode_info;
use crate::codec::copy_range;
use crate::codec::history_bytes;
use crate::codec::info_bytes;
use crate::codec::lemma_records_bytes_len;
use crate::codec::parse_info;
use crate::codec::parse_record;
use crate::codec::valid_info_frame;
use crate::codec::valid_record_frame;
use crate::log::History;
use crate::log::MAX_HISTORY;
use crate::log::appended;
use crate::log::sorted_by_timestamp;
use crate::record::InfoData;
use crate::record::InfoMsg;
use crate::record::RecordModel;
use crate::record::wf_record;
use crate::registry::MAX_STRIKES;
use crate::registry::Phase;
use crate::registry::PhaseModel;
use crate::registry::Registry;
use crate::registry::SessionModel;
use crate::registry::has_id;
use crate::registry::idx_of;
use crate::registry::lemma_idx_unique;
use crate::registry::new_session;
use crate::registry::session_of;
use crate::registry::synced_ids_of;
use crate::registry::wf_sessions;

verus! {

/// What the caller must do after handing the server an event, in order.
pub enum Action {
    /// Write these bytes back to the session the event came from.
    Reply(Vec<u8>),
    /// Write these bytes to the session with this id, best effort.
    Broadcast(u64, Vec<u8>),
    /// Overwrite the snapshot file with these bytes.
    Persist(Vec<u8>),
    /// The session was removed: close its socket and end its read loop.
    Disconnect,
}

/// Mathematical image of an action.
pub ghost enum ActionModel {
    Reply(Seq<u8>),
    Broadcast(u64, Seq<u8>),
    Persist(Seq<u8>),
    Disconnect,
}

impl View for Action {
    type V = ActionModel;

    open spec fn view(&self) -> ActionModel {
        match self {
            Action::Reply(b) => ActionModel::Reply(b@),
            Action::Broadcast(id, b) => ActionModel::Broadcast(*id, b@),
            Action::Persist(b) => ActionModel::Persist(b@),
            Action::Disconnect => ActionModel::Disconnect,
        }
    }
}

pub open spec fn action_models(s: Seq<Action>) -> Seq<ActionModel> {
    s.map_values(|a: Action| a@)
}

proof fn lemma_action_models_push(s: Seq<Action>, a: Action)
    ensures
        action_models(s.push(a)) == action_models(s).push(a@),
{
    assert(action_models(s.push(a)) =~= action_models(s).push(a@));
}

/// Mathematical image of the whole server.
#[verifier::ext_equal]
pub ghost struct ServerModel {
    pub log: Seq<RecordModel>,
    pub sessions: Seq<(u64, SessionModel)>,
    pub next_id: u64,
}

pub open spec fn wf_model(m: ServerModel) -> bool {
    &&& m.log.len() <= MAX_HISTORY
    &&& sorted_by_timestamp(m.log)
    &&& forall|i: int| 0 <= i < m.log.len() ==> wf_record(#[trigger] m.log[i])
    &&& wf_sessions(m.sessions, m.next_id)
    &&& forall|i: int|
        0 <= i < m.sessions.len() ==> (#[trigger] m.sessions[i].1).error_strikes <= MAX_STRIKES
}

pub open spec fn remove_session(m: ServerModel, id: u64) -> ServerModel
    recommends
        has_id(m.sessions, id),
{
    ServerModel { sessions: m.sessions.remove(idx_of(m.sessions, id)), ..m }
}

pub open spec fn update_session(m: ServerModel, id: u64, sess: SessionModel) -> ServerModel
    recommends
        has_id(m.sessions, id),
{
    ServerModel { sessions: m.sessions.update(idx_of(m.sessions, id), (id, sess)), ..m }
}

/// One handshake step, driven by the tag of a decoded control frame.
///
/// A length request in the idle phase answers with the snapshot's byte size
/// and pins that snapshot; a history request in the announced phase sends
/// exactly the pinned bytes; a confirmation in the final phase marks the
/// session synced. Anything else aborts the handshake silently: the session
/// merely falls back to the idle phase, unsynced.
pub open spec fn step_control(m: ServerModel, id: u64, msg: InfoMsg) -> (ServerModel, Seq<
    ActionModel,
>)
    recommends
        wf_model(m),
        has_id(m.sessions, id),
{
    let sess = session_of(m.sessions, id);
    match (sess.phase, msg) {
        (PhaseModel::AwaitLengthRequest, InfoMsg::RequestHistoryLength) => {
            let pending = history_bytes(m.log);
            let reply = info_bytes(
                InfoData { msg: InfoMsg::HistoryLength, number: pending.len() as i32 },
            );
            (
                update_session(
                    m,
                    id,
                    SessionModel { phase: PhaseModel::AwaitHistoryRequest(pending), ..sess },
                ),
                seq![ActionModel::Reply(reply)],
            )
        },
        (PhaseModel::AwaitHistoryRequest(p), InfoMsg::RequestHistory) => (
            update_session(m, id, SessionModel { phase: PhaseModel::AwaitConfirm, ..sess }),
            seq![ActionModel::Reply(p)],
        ),
        (PhaseModel::AwaitConfirm, InfoMsg::ConfirmReceivedHistory) => (
            update_session(
                m,
                id,
                SessionModel {
                    history_synced: true,
                    phase: PhaseModel::AwaitLengthRequest,
                    ..sess
                },
            ),
            Seq::empty(),
        ),
        _ => (
            update_session(m, id, SessionModel { phase: PhaseModel::AwaitLengthRequest, ..sess }),
            Seq::empty(),
        ),
    }
}

/// One data record arriving from a session: any handshake in flight is
/// aborted (the frame was not the awaited control record); a record whose
/// length-request flag rides along is dropped; any other record is appended
/// to the log, the new snapshot is persisted, and the raw frame fans out to
/// every synced session, in registry order.
pub open spec fn step_data(m: ServerModel, id: u64, rec: RecordModel, frame: Seq<u8>) -> (
    ServerModel,
    Seq<ActionModel>,
)
    recommends
        wf_model(m),
        has_id(m.sessions, id),
{
    let sess = session_of(m.sessions, id);
    let m1 = update_session(m, id, SessionModel { phase: PhaseModel::AwaitLengthRequest, ..sess });
    if rec.request_history_length {
        (m1, Seq::empty())
    } else {
        let log1 = appended(m1.log, rec);
        let m2 = ServerModel { log: log1, ..m1 };
        (
            m2,
            seq![ActionModel::Persist(history_bytes(log1))] + synced_ids_of(m1.sessions).map_values(
                |sid: u64| ActionModel::Broadcast(sid, frame),
            ),
        )
    }
}

/// One frame read off a session's socket. Frames are told apart by byte
/// length alone: the control size drives the handshake, the data size is a
/// canvas update, anything else is ignored. A frame of a known size whose
/// bytes do not decode removes the session — one malformed peer must not
/// harm the rest.
pub open spec fn step_frame(m: ServerModel, id: u64, frame: Seq<u8>) -> (ServerModel, Seq<
    ActionModel,
>)
    recommends
        wf_model(m),
        has_id(m.sessions, id),
{
    if frame.len() == CONTROL_FRAME_SIZE {
        if valid_info_frame(frame) {
            step_control(m, id, parse_info(frame).msg)
        } else {
            (remove_session(m, id), seq![ActionModel::Disconnect])
        }
    } else if frame.len() == DATA_FRAME_SIZE {
        if valid_record_frame(frame) {
            step_data(m, id, parse_record(frame), frame)
        } else {
            (remove_session(m, id), seq![ActionModel::Disconnect])
        }
    } else {
        (m, Seq::empty())
    }
}

/// One read failure on a session's socket. A clean close removes the session
/// at once; any other failure is one more strike, and the strike past the
/// bound removes it. The returned flag says whether the session is gone.
pub open spec fn step_error(m: ServerModel, id: u64, clean_close: bool) -> (ServerModel, bool)
    recommends
        wf_model(m),
        has_id(m.sessions, id),
{
    if clean_close {
        (remove_session(m, id), true)
    } else {
        let sess = session_of(m.sessions, id);
        if sess.error_strikes + 1 > MAX_STRIKES {
            (remove_session(m, id), true)
        } else {
            (
                update_session(
                    m,
                    id,
                    SessionModel { error_strikes: (sess.error_strikes + 1) as u8, ..sess },
                ),
                false,
            )
        }
    }
}

/// One accepted connection: a fresh unsynced session under a fresh id.
pub open spec fn step_connect(m: ServerModel) -> (ServerModel, Option<u64>) {
    if m.next_id == u64::MAX {
        (m, None)
    } else {
        (
            ServerModel {
                sessions: m.sessions.push((m.next_id, new_session())),
                next_id: (m.next_id + 1) as u64,
                ..m
            },
            Some(m.next_id),
        )
    }
}

/// The server: the history log plus the connection registry, stepped by the
/// session handlers' events.
pub struct Server {
    pub log: History,
    pub registry: Registry,
}

impl View for Server {
    type V = ServerModel;

    open spec fn view(&self) -> ServerModel {
        ServerModel { log: self.log@, sessions: self.registry@, next_id: self.registry.next_id }
    }
}

impl Server {
    pub open spec fn wf(&self) -> bool {
        wf_model(self@)
    }

    /// A server with an empty log and no sessions.
    pub fn new() -> (r: Server)
        ensures
            r.wf(),
            r@.log == Seq::<RecordModel>::empty(),
            r@.sessions == Seq::<(u64, SessionModel)>::empty(),
            r@.next_id == 0,
    {
        Server { log: History::new(), registry: Registry::new() }
    }

    /// A server that starts from a log loaded from the snapshot file.
    pub fn with_log(log: History) -> (r: Server)
        requires
            log.wf(),
        ensures
            r.wf(),
            r@.log == log@,
            r@.sessions == Seq::<(u64, SessionModel)>::empty(),
            r@.next_id == 0,
    {
        Server { log, registry: Registry::new() }
    }

    /// Registers one accepted connection and returns its session id.
    pub fn on_connect(&mut self) -> (r: Option<u64>)
        requires
            old(self).wf(),
        ensures
            final(self).wf(),
            final(self)@ == step_connect(old(self)@).0,
            r == step_connect(old(self)@).1,
            r matches Some(id) ==> has_id(final(self)@.sessions, id),
    {
        let r = self.registry.register();
        proof {
            if r is Some {
                let id = r->0;
                assert(final(self)@ =~= step_connect(old(self)@).0);
                assert(self@.sessions[self@.sessions.len() - 1].0 == id);
            } else {
                assert(final(self)@ =~= step_connect(old(self)@).0);
            }
        }
        r
    }

    /// Steps the server by one frame read off session `id`'s socket, and
    /// returns the actions the handler must perform, in order.
    pub fn on_frame(&mut self, id: u64, frame: &Vec<u8>) -> (actions: Vec<Action>)
        requires
            old(self).wf(),
            has_id(old(self)@.sessions, id),
        ensures
            final(self).wf(),
            final(self)@ == step_frame(old(self)@, id, frame@).0,
            action_models(actions@) == step_frame(old(self)@, id, frame@).1,
    {
        let ghost m0 = self@;
        let mut actions: Vec<Action> = Vec::new();
        proof {
            assert(action_models(actions@) =~= Seq::<ActionModel>::empty());
        }
        if frame.len() == CONTROL_FRAME_SIZE {
            match decode_info(frame) {
                None => {
                    self.registry.remove(id);
                    actions.push(Action::Disconnect);
                    proof {
                        assert(final(self)@ =~= remove_session(m0, id));
                        assert(action_models(actions@) =~= seq![ActionModel::Disconnect]);
                    }
                },
                Some(d) => {
                    let prev = match self.registry.swap_phase(id, Phase::AwaitLengthRequest) {
                        Some(p) => p,
                        None => vstd::pervasive::unreached(),
                    };
                    let ghost sess = session_of(m0.sessions, id);
                    let ghost i = idx_of(m0.sessions, id);
                    let ghost m1 = self@;
                    match (prev, d.msg) {
                        (Phase::AwaitLengthRequest, InfoMsg::RequestHistoryLength) => {
                            let pending = self.log.encoded();
                            proof {
                                lemma_records_bytes_len(self@.log);
                            }
                            let number = pending.len() as i32;
                            let reply = encode_info(
                                &InfoData { msg: InfoMsg::HistoryLength, number },
                            );
                            let _ = self.registry.swap_phase(
                                id,
                                Phase::AwaitHistoryRequest(pending),
                            );
                            actions.push(Action::Reply(reply));
                            proof {
                                lemma_idx_unique(m1.sessions, m0.next_id, i, id);
                                assert(final(self)@.sessions =~= step_control(
                                    m0,
                                    id,
                                    d.msg,
                                ).0.sessions);
                                assert(final(self)@ =~= step_control(m0, id, d.msg).0);
                                assert(action_models(actions@) =~= step_control(m0, id, d.msg).1);
                            }
                        },
                        (Phase::AwaitHistoryRequest(p), InfoMsg::RequestHistory) => {
                            let ghost pm = p@;
                            let _ = self.registry.swap_phase(id, Phase::AwaitConfirm);
                            actions.push(Action::Reply(p));
                            proof {
                                lemma_idx_unique(m1.sessions, m0.next_id, i, id);
                                assert(final(self)@.sessions =~= step_control(
                                    m0,
                                    id,
                                    d.msg,
                                ).0.sessions);
                                assert(final(self)@ =~= step_control(m0, id, d.msg).0);
                                assert(action_models(actions@) =~= step_control(m0, id, d.msg).1);
                            }
                        },
                        (Phase::AwaitConfirm, InfoMsg::ConfirmReceivedHistory) => {
                            self.registry.mark_synced(id);
                            proof {
                                lemma_idx_unique(m1.sessions, m0.next_id, i, id);
                                assert(final(self)@.sessions =~= step_control(
                                    m0,
                                    id,
                                    d.msg,
                                ).0.sessions);
                                assert(final(self)@ =~= step_control(m0, id, d.msg).0);
                                assert(action_models(actions@) =~= step_control(m0, id, d.msg).1);
                            }
                        },
                        _ => {
                            proof {
                                assert(final(self)@.sessions =~= step_control(
                                    m0,
                                    id,
                                    d.msg,
                                ).0.sessions);
                                assert(final(self)@ =~= step_control(m0, id, d.msg).0);
                                assert(action_models(actions@) =~= step_control(m0, id, d.msg).1);
                            }
                        },
                    }
                },
            }
        } else if frame.len() == DATA_FRAME_SIZE {
            match decode_record(frame) {
                None => {
                    self.registry.remove(id);
                    actions.push(Action::Disconnect);
                    proof {
                        assert(final(self)@ =~= remove_session(m0, id));
                        assert(action_models(actions@) =~= seq![ActionModel::Disconnect]);
                    }
                },
                Some(rec) => {
                    let ghost sess = session_of(m0.sessions, id);
                    let ghost i = idx_of(m0.sessions, id);
                    let _ = self.registry.swap_phase(id, Phase::AwaitLengthRequest);
                    let ghost m1 = self@;
                    proof {
                        assert(m1 =~= update_session(
                            m0,
                            id,
                            SessionModel { phase: PhaseModel::AwaitLengthRequest, ..sess },
                        ));
                    }
                    if rec.request_history_length {
                        proof {
                            assert(action_models(actions@) =~= Seq::<ActionModel>::empty());
                        }
                    } else {
                        self.log.append(rec);
                        let snapshot = self.log.encoded();
                        let ghost persist = ActionModel::Persist(history_bytes(
                            appended(m1.log, rec@),
                        ));
                        actions.push(Action::Persist(snapshot));
                        let ids = self.registry.synced_ids();
                        let ghost bc = synced_ids_of(m1.sessions).map_values(
                            |sid: u64| ActionModel::Broadcast(sid, frame@),
                        );
                        let mut k: usize = 0;
                        let n = ids.len();
                        while k < n
                            invariant
                                k <= n,
                                n == ids@.len(),
                                bc.len() == n,
                                forall|j: int| 0 <= j < n ==> bc[j] == ActionModel::Broadcast(
                                    ids@[j],
                                    frame@,
                                ),
                                action_models(actions@) == seq![persist] + bc.take(k as int),
                            decreases n - k,
                        {
                            let copy = copy_range(frame, 0, frame.len());
                            proof {
                                assert(copy@ =~= frame@);
                            }
                            let ghost pre = actions@;
                            let the_id = ids[k];
                            actions.push(Action::Broadcast(the_id, copy));
                            proof {
                                lemma_action_models_push(pre, Action::Broadcast(the_id, copy));
                                assert(actions@ == pre.push(Action::Broadcast(the_id, copy)));
                                assert(Action::Broadcast(the_id, copy)@ == bc[k as int]);
                                assert(bc.take(k as int + 1) =~= bc.take(k as int).push(
                                    bc[k as int],
                                ));
                                assert(action_models(actions@) =~= seq![persist] + bc.take(
                                    k as int + 1,
                                ));
                            }
                            k = k + 1;
                        }
                        proof {
                            assert(bc.take(n as int) =~= bc);
                            assert(final(self)@ =~= step_data(m0, id, rec@, frame@).0);
                            assert(action_models(actions@) =~= step_data(m0, id, rec@, frame@).1);
                        }
                    }
                },
            }
        }
        actions
    }

    /// Steps the server by one read failure on session `id`'s socket; `true`
    /// means the session was removed and its handler must stop.
    pub fn on_read_error(&mut self, id: u64, clean_close: bool) -> (disconnected: bool)
        requires
            old(self).wf(),
            has_id(old(self)@.sessions, id),
        ensures
            final(self).wf(),
            final(self)@ == step_error(old(self)@, id, clean_close).0,
            disconnected == step_error(old(self)@, id, clean_close).1,
            disconnected ==> !has_id(final(self)@.sessions, id),
    {
        let ghost m0 = self@;
        if clean_close {
            self.registry.remove(id);
            proof {
                assert(final(self)@ =~= remove_session(m0, id));
            }
            return true;
        }
        let ghost i = idx_of(m0.sessions, id);
        let n = match self.registry.record_error(id) {
            Some(n) => n,
            None => vstd::pervasive::unreached(),
        };
        let ghost m1 = self@;
        if n > MAX_STRIKES {
            proof {
                lemma_idx_unique(m1.sessions, m0.next_id, i, id);
            }
            self.registry.remove(id);
            proof {
                assert(m1.sessions.remove(i) =~= m0.sessions.remove(i));
                assert(final(self)@ =~= remove_session(m0, id));
            }
            true
        } else {
            proof {
                assert(final(self)@ =~= step_error(m0, id, clean_close).0);
            }
            false
        }
    }
}

} // verus!
