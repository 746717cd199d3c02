//! The two record types of the wire protocol: full-size data records
//! (canvas snapshots) and small control records (catch-up handshake).

use vstd::prelude::*;
use crate::codec::NAME_LEN;
use crate::codec::PIXELS_LEN;

verus! {

/// Mathematical image of a data record.
pub ghost struct RecordModel {
    pub name: Seq<u8>,
    pub pixels: Seq<u8>,
    pub request_history: bool,
    pub request_history_length: bool,
    pub history_length: i32,
    pub confirm_history: bool,
    pub timestamp: u128,
}

/// One canvas snapshot: the unit of history and of broadcast.
///
/// The boolean flags and `history_length` ride along in the same frame as an
/// ad-hoc control channel; only `name`, `data` and `timestamp` matter for a
/// plain drawing update.
#[derive(Clone)]
pub struct TextureData {
    pub name: Vec<u8>,
    pub data: Vec<u8>,
    pub request_history: bool,
    pub request_history_length: bool,
    pub history_length: i32,
    pub confirm_history: bool,
    pub timestamp: u128,
}

impl View for TextureData {
    type V = RecordModel;

    open spec fn view(&self) -> RecordModel {
        RecordModel {
            name: self.name@,
            pixels: self.data@,
            request_history: self.request_history,
            request_history_length: self.request_history_length,
            history_length: self.history_length,
            confirm_history: self.confirm_history,
            timestamp: self.timestamp,
        }
    }
}

/// A record is well formed when its two byte fields have their fixed sizes.
pub open spec fn wf_record(m: RecordModel) -> bool {
    &&& m.name.len() == NAME_LEN
    &&& m.pixels.len() == PIXELS_LEN
}

/// The fresh blank record a client starts from: the given producer name
/// padded with zero bytes to the fixed width, a canvas of mid-grey pixels,
/// no control flags, and the caller's clock reading.
pub open spec fn blank_record(name: Seq<u8>, timestamp: u128) -> RecordModel {
    RecordModel {
        name: name + Seq::new((NAME_LEN - name.len()) as nat, |i: int| 0u8),
        pixels: Seq::new(PIXELS_LEN as nat, |i: int| 127u8),
        request_history: false,
        request_history_length: false,
        history_length: 0,
        confirm_history: false,
        timestamp: timestamp,
    }
}

impl TextureData {
    /// Builds the blank record for one producer. The timestamp is handed in
    /// by the caller, milliseconds since the epoch by convention.
    pub fn new(myname: &Vec<u8>, timestamp: u128) -> (r: TextureData)
        requires
            myname@.len() <= NAME_LEN,
        ensures
            r@ == blank_record(myname@, timestamp),
            wf_record(r@),
    {
        let mut name: Vec<u8> = Vec::new();
        let mut i: usize = 0;
        while i < myname.len()
            invariant
                i <= myname@.len(),
                name@ == myname@.subrange(0, i as int),
            decreases myname@.len() - i,
        {
            name.push(myname[i]);
            proof {
                assert(name@ =~= myname@.subrange(0, i as int + 1));
            }
            i = i + 1;
        }
        proof {
            assert(name@ =~= myname@);
        }
        while name.len() < NAME_LEN
            invariant
                myname@.len() <= name@.len() <= NAME_LEN,
                name@ == myname@ + Seq::new((name@.len() - myname@.len()) as nat, |j: int| 0u8),
            decreases NAME_LEN - name@.len(),
        {
            name.push(0);
            proof {
                assert(name@ =~= myname@ + Seq::new(
                    (name@.len() - myname@.len()) as nat,
                    |j: int| 0u8,
                ));
            }
        }
        let mut data: Vec<u8> = Vec::new();
        while data.len() < PIXELS_LEN
            invariant
                data@.len() <= PIXELS_LEN,
                data@ == Seq::new(data@.len(), |j: int| 127u8),
            decreases PIXELS_LEN - data@.len(),
        {
            data.push(127);
            proof {
                assert(data@ =~= Seq::new(data@.len(), |j: int| 127u8));
            }
        }
        TextureData {
            name,
            data,
            request_history: false,
            request_history_length: false,
            history_length: 0,
            confirm_history: false,
            timestamp,
        }
    }
}


/// The mathematical image of a sequence of records.
pub open spec fn models(s: Seq<TextureData>) -> Seq<RecordModel> {
    s.map_values(|r: TextureData| r@)
}

/// The tag of a control record.
#[derive(Clone, Copy, PartialEq, Eq, Structural)]
pub enum InfoMsg {
    RequestHistoryLength,
    HistoryLength,
    RequestHistory,
    ConfirmReceivedHistory,
    Nothing,
}

/// A control record: a handshake tag plus one number, which only a
/// `HistoryLength` response uses (the byte size of the pending snapshot).
#[derive(Clone, Copy, PartialEq, Eq, Structural)]
pub struct InfoData {
    pub msg: InfoMsg,
    pub number: i32,
}

} // verus!
