//! The client side of the protocol: the control frames a client sends, the
//! three-step catch-up state machine it drives, and the handling of live
//! broadcast frames.
//!
//! The caller owns the socket: it writes the frames these functions hand it
//! and feeds back what it read. All protocol decisions are made here.

use vstd::prelude::*;
use crate::codec::CONTROL_FRAME_SIZE;
use crate::codec::decode_info;
use crate::codec::decode_record;
use crate::codec::encode_info;
use crate::codec::info_bytes;
use crate::codec::parse_history;
use crate::codec::parse_info;
use crate::codec::parse_record;
use crate::codec::valid_info_frame;
use crate::codec::valid_record_frame;
use crate::log::History;
use crate::log::appended;
use crate::log::loadable;
use crate::record::InfoData;
use crate::record::InfoMsg;

verus! {

/// The control frame that opens the catch-up handshake.
pub fn request_history_length() -> (r: Vec<u8>)
    ensures
        r@ == info_bytes(InfoData { msg: InfoMsg::RequestHistoryLength, number: 0 }),
{
    encode_info(&InfoData { msg: InfoMsg::RequestHistoryLength, number: 0 })
}

/// The control frame that asks for the announced snapshot bytes.
pub fn request_history() -> (r: Vec<u8>)
    ensures
        r@ == info_bytes(InfoData { msg: InfoMsg::RequestHistory, number: 0 }),
{
    encode_info(&InfoData { msg: InfoMsg::RequestHistory, number: 0 })
}

/// The control frame that confirms the snapshot arrived.
pub fn confirm_history() -> (r: Vec<u8>)
    ensures
        r@ == info_bytes(InfoData { msg: InfoMsg::ConfirmReceivedHistory, number: 0 }),
{
    encode_info(&InfoData { msg: InfoMsg::ConfirmReceivedHistory, number: 0 })
}

/// Where the client stands in its catch-up handshake.
pub enum CatchupPhase {
    /// Not started, or abandoned after an unexpected response: the client
    /// retries from the length request.
    Start,
    /// The length request has gone out; a length response is awaited.
    SentLengthRequest,
    /// The history request has gone out; this many snapshot bytes follow.
    SentHistoryRequest(u32),
    /// The snapshot was received and confirmed.
    Complete,
}

/// Mathematical image of a catch-up phase.
pub ghost enum CatchupPhaseModel {
    Start,
    SentLengthRequest,
    SentHistoryRequest(u32),
    Complete,
}

impl View for CatchupPhase {
    type V = CatchupPhaseModel;

    open spec fn view(&self) -> CatchupPhaseModel {
        match self {
            CatchupPhase::Start => CatchupPhaseModel::Start,
            CatchupPhase::SentLengthRequest => CatchupPhaseModel::SentLengthRequest,
            CatchupPhase::SentHistoryRequest(n) => CatchupPhaseModel::SentHistoryRequest(*n),
            CatchupPhase::Complete => CatchupPhaseModel::Complete,
        }
    }
}

/// The client's catch-up state machine. One instance drives one attempt;
/// after an unexpected response it falls back to `Start`, as the protocol
/// lets a client retry the whole handshake at any time.
pub struct Catchup {
    pub phase: CatchupPhase,
}

impl Catchup {
    pub fn new() -> (r: Catchup)
        ensures
            r.phase@ == CatchupPhaseModel::Start,
    {
        Catchup { phase: CatchupPhase::Start }
    }

    /// Opens (or reopens) the handshake: hands the caller the length request
    /// to write.
    pub fn begin(&mut self) -> (frame: Vec<u8>)
        ensures
            frame@ == info_bytes(InfoData { msg: InfoMsg::RequestHistoryLength, number: 0 }),
            final(self).phase@ == CatchupPhaseModel::SentLengthRequest,
    {
        self.phase = CatchupPhase::SentLengthRequest;
        request_history_length()
    }

    /// Feeds in the control frame read after the length request. On a length
    /// response announcing `n` bytes, the machine notes `n` and hands back
    /// the history request to write; on anything else the attempt is
    /// abandoned.
    pub fn on_length_response(&mut self, b: &Vec<u8>) -> (r: Option<Vec<u8>>)
        requires
            old(self).phase@ == CatchupPhaseModel::SentLengthRequest,
        ensures
            ({
                let good = valid_info_frame(b@) && parse_info(b@).msg == InfoMsg::HistoryLength
                    && parse_info(b@).number >= 0;
                &&& r.is_some() <==> good
                &&& good ==> {
                    &&& final(self).phase@ == CatchupPhaseModel::SentHistoryRequest(
                        parse_info(b@).number as u32,
                    )
                    &&& r matches Some(f) ==> f@ == info_bytes(
                        InfoData { msg: InfoMsg::RequestHistory, number: 0 },
                    )
                }
                &&& !good ==> final(self).phase@ == CatchupPhaseModel::Start
            }),
    {
        match decode_info(b) {
            Some(d) => {
                if d.msg == InfoMsg::HistoryLength && d.number >= 0 {
                    self.phase = CatchupPhase::SentHistoryRequest(d.number as u32);
                    Some(request_history())
                } else {
                    self.phase = CatchupPhase::Start;
                    None
                }
            },
            None => {
                self.phase = CatchupPhase::Start;
                None
            },
        }
    }

    /// How many snapshot bytes the caller must read next, if the machine is
    /// waiting for the snapshot.
    pub fn expected_bytes(&self) -> (r: Option<u32>)
        ensures
            r matches Some(n) ==> self.phase@ == CatchupPhaseModel::SentHistoryRequest(n),
            r is None ==> !(self.phase@ is SentHistoryRequest),
    {
        match &self.phase {
            CatchupPhase::SentHistoryRequest(n) => Some(*n),
            _ => None,
        }
    }

    /// Feeds in the snapshot bytes. If they are the announced number of
    /// bytes and decode to a well-formed log, the log is returned with the
    /// confirmation frame to write and the handshake is complete; otherwise
    /// the attempt is abandoned.
    pub fn on_history_payload(&mut self, b: &Vec<u8>) -> (r: Option<(History, Vec<u8>)>)
        requires
            old(self).phase@ is SentHistoryRequest,
        ensures
            ({
                let n = old(self).phase@->SentHistoryRequest_0;
                let good = b@.len() == n && loadable(b@);
                &&& r.is_some() <==> good
                &&& good ==> {
                    &&& final(self).phase@ == CatchupPhaseModel::Complete
                    &&& r matches Some(p) ==> {
                        &&& p.0.wf()
                        &&& p.0@ == parse_history(b@)
                        &&& p.1@ == info_bytes(
                            InfoData { msg: InfoMsg::ConfirmReceivedHistory, number: 0 },
                        )
                    }
                }
                &&& !good ==> final(self).phase@ == CatchupPhaseModel::Start
            }),
    {
        let n = match &self.phase {
            CatchupPhase::SentHistoryRequest(n) => *n,
            _ => vstd::pervasive::unreached(),
        };
        if b.len() != n as usize {
            self.phase = CatchupPhase::Start;
            return None;
        }
        match History::from_bytes(b) {
            Some(h) => {
                self.phase = CatchupPhase::Complete;
                Some((h, confirm_history()))
            },
            None => {
                self.phase = CatchupPhase::Start;
                None
            },
        }
    }
}

/// Applies one live frame read off the socket to the client's replay log:
/// a well-formed data frame joins the log under the same bound, eviction and
/// timestamp order the server keeps; anything else is dropped. Returns
/// whether the log changed (the caller redraws on `true`).
pub fn receive_update(history: &mut History, frame: &Vec<u8>) -> (r: bool)
    requires
        old(history).wf(),
    ensures
        final(history).wf(),
        r == valid_record_frame(frame@),
        r ==> final(history)@ == appended(old(history)@, parse_record(frame@)),
        !r ==> *final(history) == *old(history),
{
    match decode_record(frame) {
        Some(rec) => {
            history.append(rec);
            true
        },
        None => false,
    }
}

} // verus!
