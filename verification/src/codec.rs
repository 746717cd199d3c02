//! Byte-level wire layout shared by the server, the clients and the
//! persisted history file.
//!
//! Every frame is a fixed-size little-endian layout: a control frame is a
//! tag word plus a number, a data frame is one canvas snapshot record, and
//! the history snapshot is a count followed by that many data frames.

use vstd::prelude::*;
use crate::record::InfoData;
use crate::record::InfoMsg;
use crate::record::RecordModel;
use crate::record::TextureData;
use crate::record::models;
use crate::record::wf_record;

verus! {

/// Size in bytes of an encoded control record.
pub const CONTROL_FRAME_SIZE: usize = 8;

/// Size in bytes of an encoded data record.
pub const DATA_FRAME_SIZE: usize = 40055;

/// Fixed length of a producer name.
pub const NAME_LEN: usize = 24;

/// Fixed length of a canvas snapshot payload (200 x 200 bytes).
pub const PIXELS_LEN: usize = 40000;

// ---------------------------------------------------------------------------
// Little-endian integer layout
// ---------------------------------------------------------------------------

pub open spec fn u32_le_bytes(x: u32) -> Seq<u8> {
    seq![
        (x & 0xff) as u8,
        ((x >> 8) & 0xff) as u8,
        ((x >> 16) & 0xff) as u8,
        ((x >> 24) & 0xff) as u8,
    ]
}

pub open spec fn u32_from_le(b: Seq<u8>) -> u32
    recommends
        b.len() == 4,
{
    (b[0] as u32) | (b[1] as u32) << 8 | (b[2] as u32) << 16 | (b[3] as u32) << 24
}

pub open spec fn u64_le_bytes(x: u64) -> Seq<u8> {
    seq![
        (x & 0xff) as u8,
        ((x >> 8) & 0xff) as u8,
        ((x >> 16) & 0xff) as u8,
        ((x >> 24) & 0xff) as u8,
        ((x >> 32) & 0xff) as u8,
        ((x >> 40) & 0xff) as u8,
        ((x >> 48) & 0xff) as u8,
        ((x >> 56) & 0xff) as u8,
    ]
}

pub open spec fn u64_from_le(b: Seq<u8>) -> u64
    recommends
        b.len() == 8,
{
    (b[0] as u64) | (b[1] as u64) << 8 | (b[2] as u64) << 16 | (b[3] as u64) << 24
        | (b[4] as u64) << 32 | (b[5] as u64) << 40 | (b[6] as u64) << 48 | (b[7] as u64) << 56
}

/// A 128-bit timestamp is laid out as its low and high halves, each little endian.
pub open spec fn u128_le_bytes(x: u128) -> Seq<u8> {
    u64_le_bytes((x & 0xffff_ffff_ffff_ffff) as u64) + u64_le_bytes((x >> 64) as u64)
}

pub open spec fn u128_from_le(b: Seq<u8>) -> u128
    recommends
        b.len() == 16,
{
    (u64_from_le(b.subrange(0, 8)) as u128) | (u64_from_le(b.subrange(8, 16)) as u128) << 64
}

pub proof fn lemma_u32_le_round_trip(x: u32)
    ensures
        u32_from_le(u32_le_bytes(x)) == x,
{
    assert(x == (x & 0xff) | ((x >> 8) & 0xff) << 8 | ((x >> 16) & 0xff) << 16 | ((x >> 24) & 0xff)
        << 24) by (bit_vector);
    assert(((x & 0xff) as u8) as u32 == (x & 0xff)) by (bit_vector);
    assert((((x >> 8) & 0xff) as u8) as u32 == ((x >> 8) & 0xff)) by (bit_vector);
    assert((((x >> 16) & 0xff) as u8) as u32 == ((x >> 16) & 0xff)) by (bit_vector);
    assert((((x >> 24) & 0xff) as u8) as u32 == ((x >> 24) & 0xff)) by (bit_vector);
}

pub proof fn lemma_u32_le_extract(b: Seq<u8>)
    requires
        b.len() == 4,
    ensures
        u32_le_bytes(u32_from_le(b)) == b,
{
    let b0 = b[0];
    let b1 = b[1];
    let b2 = b[2];
    let b3 = b[3];
    let x = u32_from_le(b);
    assert(x == (b0 as u32) | (b1 as u32) << 8 | (b2 as u32) << 16 | (b3 as u32) << 24);
    assert({
        let y = (b0 as u32) | (b1 as u32) << 8 | (b2 as u32) << 16 | (b3 as u32) << 24;
        (y & 0xff) as u8 == b0 && ((y >> 8) & 0xff) as u8 == b1 && ((y >> 16) & 0xff) as u8 == b2
            && ((y >> 24) & 0xff) as u8 == b3
    }) by (bit_vector);
    assert(u32_le_bytes(x) =~= b);
}

pub proof fn lemma_u64_le_round_trip(x: u64)
    ensures
        u64_from_le(u64_le_bytes(x)) == x,
{
    assert(x == (x & 0xff) | ((x >> 8) & 0xff) << 8 | ((x >> 16) & 0xff) << 16 | ((x >> 24) & 0xff)
        << 24 | ((x >> 32) & 0xff) << 32 | ((x >> 40) & 0xff) << 40 | ((x >> 48) & 0xff) << 48 | ((
    x >> 56) & 0xff) << 56) by (bit_vector);
    assert(((x & 0xff) as u8) as u64 == (x & 0xff)) by (bit_vector);
    assert((((x >> 8) & 0xff) as u8) as u64 == ((x >> 8) & 0xff)) by (bit_vector);
    assert((((x >> 16) & 0xff) as u8) as u64 == ((x >> 16) & 0xff)) by (bit_vector);
    assert((((x >> 24) & 0xff) as u8) as u64 == ((x >> 24) & 0xff)) by (bit_vector);
    assert((((x >> 32) & 0xff) as u8) as u64 == ((x >> 32) & 0xff)) by (bit_vector);
    assert((((x >> 40) & 0xff) as u8) as u64 == ((x >> 40) & 0xff)) by (bit_vector);
    assert((((x >> 48) & 0xff) as u8) as u64 == ((x >> 48) & 0xff)) by (bit_vector);
    assert((((x >> 56) & 0xff) as u8) as u64 == ((x >> 56) & 0xff)) by (bit_vector);
}

pub proof fn lemma_u64_le_extract(b: Seq<u8>)
    requires
        b.len() == 8,
    ensures
        u64_le_bytes(u64_from_le(b)) == b,
{
    let b0 = b[0];
    let b1 = b[1];
    let b2 = b[2];
    let b3 = b[3];
    let b4 = b[4];
    let b5 = b[5];
    let b6 = b[6];
    let b7 = b[7];
    let x = u64_from_le(b);
    assert(x == (b0 as u64) | (b1 as u64) << 8 | (b2 as u64) << 16 | (b3 as u64) << 24 | (
    b4 as u64) << 32 | (b5 as u64) << 40 | (b6 as u64) << 48 | (b7 as u64) << 56);
    assert({
        let y = (b0 as u64) | (b1 as u64) << 8 | (b2 as u64) << 16 | (b3 as u64) << 24 | (
        b4 as u64) << 32 | (b5 as u64) << 40 | (b6 as u64) << 48 | (b7 as u64) << 56;
        (y & 0xff) as u8 == b0 && ((y >> 8) & 0xff) as u8 == b1 && ((y >> 16) & 0xff) as u8 == b2
            && ((y >> 24) & 0xff) as u8 == b3 && ((y >> 32) & 0xff) as u8 == b4 && ((y >> 40)
            & 0xff) as u8 == b5 && ((y >> 48) & 0xff) as u8 == b6 && ((y >> 56) & 0xff) as u8 == b7
    }) by (bit_vector);
    assert(u64_le_bytes(x) =~= b);
}

pub proof fn lemma_u128_le_round_trip(x: u128)
    ensures
        u128_from_le(u128_le_bytes(x)) == x,
{
    let lo = (x & 0xffff_ffff_ffff_ffff) as u64;
    let hi = (x >> 64) as u64;
    lemma_u64_le_round_trip(lo);
    lemma_u64_le_round_trip(hi);
    assert(u128_le_bytes(x).subrange(0, 8) =~= u64_le_bytes(lo));
    assert(u128_le_bytes(x).subrange(8, 16) =~= u64_le_bytes(hi));
    assert(x == (((x & 0xffff_ffff_ffff_ffff) as u64) as u128) | (((x >> 64) as u64) as u128) << 64)
        by (bit_vector);
}

pub proof fn lemma_u128_le_extract(b: Seq<u8>)
    requires
        b.len() == 16,
    ensures
        u128_le_bytes(u128_from_le(b)) == b,
{
    let lo = u64_from_le(b.subrange(0, 8));
    let hi = u64_from_le(b.subrange(8, 16));
    let x = u128_from_le(b);
    assert({
        let y = (lo as u128) | (hi as u128) << 64;
        (y & 0xffff_ffff_ffff_ffff) as u64 == lo && (y >> 64) as u64 == hi
    }) by (bit_vector);
    lemma_u64_le_extract(b.subrange(0, 8));
    lemma_u64_le_extract(b.subrange(8, 16));
    assert(u128_le_bytes(x) =~= b);
}

// ---------------------------------------------------------------------------
// Executable readers and writers for the primitives
// ---------------------------------------------------------------------------

pub fn push_u32_le(out: &mut Vec<u8>, x: u32)
    ensures
        final(out)@ == old(out)@ + u32_le_bytes(x),
{
    out.push((x & 0xff) as u8);
    out.push(((x >> 8) & 0xff) as u8);
    out.push(((x >> 16) & 0xff) as u8);
    out.push(((x >> 24) & 0xff) as u8);
    assert(out@ =~= old(out)@ + u32_le_bytes(x));
}

pub fn push_u64_le(out: &mut Vec<u8>, x: u64)
    ensures
        final(out)@ == old(out)@ + u64_le_bytes(x),
{
    out.push((x & 0xff) as u8);
    out.push(((x >> 8) & 0xff) as u8);
    out.push(((x >> 16) & 0xff) as u8);
    out.push(((x >> 24) & 0xff) as u8);
    out.push(((x >> 32) & 0xff) as u8);
    out.push(((x >> 40) & 0xff) as u8);
    out.push(((x >> 48) & 0xff) as u8);
    out.push(((x >> 56) & 0xff) as u8);
    assert(out@ =~= old(out)@ + u64_le_bytes(x));
}

pub fn push_u128_le(out: &mut Vec<u8>, x: u128)
    ensures
        final(out)@ == old(out)@ + u128_le_bytes(x),
{
    push_u64_le(out, (x & 0xffff_ffff_ffff_ffff) as u64);
    push_u64_le(out, (x >> 64) as u64);
    assert(out@ =~= old(out)@ + u128_le_bytes(x));
}

pub fn read_u32_le(b: &Vec<u8>, off: usize) -> (r: u32)
    requires
        off + 4 <= b@.len(),
    ensures
        r == u32_from_le(b@.subrange(off as int, off as int + 4)),
{
    // binding the length keeps its machine bound in scope for the offsets
    let n: usize = b.len();
    let _ = n;
    let r = (b[off] as u32) | (b[off + 1] as u32) << 8 | (b[off + 2] as u32) << 16 | (b[off
        + 3] as u32) << 24;
    proof {
        let s = b@.subrange(off as int, off as int + 4);
        assert(s[0] == b@[off as int] && s[1] == b@[off as int + 1] && s[2] == b@[off as int + 2]
            && s[3] == b@[off as int + 3]);
    }
    r
}

pub fn read_u64_le(b: &Vec<u8>, off: usize) -> (r: u64)
    requires
        off + 8 <= b@.len(),
    ensures
        r == u64_from_le(b@.subrange(off as int, off as int + 8)),
{
    // binding the length keeps its machine bound in scope for the offsets
    let n: usize = b.len();
    let _ = n;
    let r = (b[off] as u64) | (b[off + 1] as u64) << 8 | (b[off + 2] as u64) << 16 | (b[off
        + 3] as u64) << 24 | (b[off + 4] as u64) << 32 | (b[off + 5] as u64) << 40 | (b[off
        + 6] as u64) << 48 | (b[off + 7] as u64) << 56;
    proof {
        let s = b@.subrange(off as int, off as int + 8);
        assert(s[0] == b@[off as int] && s[1] == b@[off as int + 1] && s[2] == b@[off as int + 2]
            && s[3] == b@[off as int + 3] && s[4] == b@[off as int + 4] && s[5] == b@[off as int
            + 5] && s[6] == b@[off as int + 6] && s[7] == b@[off as int + 7]);
    }
    r
}

pub fn read_u128_le(b: &Vec<u8>, off: usize) -> (r: u128)
    requires
        off + 16 <= b@.len(),
    ensures
        r == u128_from_le(b@.subrange(off as int, off as int + 16)),
{
    // binding the length keeps its machine bound in scope for the offsets
    let n: usize = b.len();
    let _ = n;
    let lo = read_u64_le(b, off);
    let hi = read_u64_le(b, off + 8);
    proof {
        let s = b@.subrange(off as int, off as int + 16);
        assert(s.subrange(0, 8) =~= b@.subrange(off as int, off as int + 8));
        assert(s.subrange(8, 16) =~= b@.subrange(off as int + 8, off as int + 16));
    }
    (lo as u128) | (hi as u128) << 64
}

// ---------------------------------------------------------------------------
// Two's-complement layout of the signed length field
// ---------------------------------------------------------------------------

pub open spec fn u32_of_i32(x: i32) -> u32 {
    if x >= 0 {
        x as u32
    } else {
        (x + 0x1_0000_0000) as u32
    }
}

pub open spec fn i32_of_u32(u: u32) -> i32 {
    if u < 0x8000_0000 {
        u as i32
    } else {
        (u - 0x1_0000_0000) as i32
    }
}

pub proof fn lemma_i32_round_trip(x: i32)
    ensures
        i32_of_u32(u32_of_i32(x)) == x,
{
}

pub proof fn lemma_u32_round_trip(u: u32)
    ensures
        u32_of_i32(i32_of_u32(u)) == u,
{
}

pub fn i32_to_u32(x: i32) -> (r: u32)
    ensures
        r == u32_of_i32(x),
{
    if x >= 0 {
        x as u32
    } else {
        ((x as i64) + 0x1_0000_0000) as u32
    }
}

pub fn u32_to_i32(u: u32) -> (r: i32)
    ensures
        r == i32_of_u32(u),
{
    if u < 0x8000_0000 {
        u as i32
    } else {
        ((u as i64) - 0x1_0000_0000) as i32
    }
}

// ---------------------------------------------------------------------------
// Control frames
// ---------------------------------------------------------------------------

/// Wire tag of a control message, in declaration order.
pub open spec fn msg_tag(m: InfoMsg) -> u32 {
    match m {
        InfoMsg::RequestHistoryLength => 0,
        InfoMsg::HistoryLength => 1,
        InfoMsg::RequestHistory => 2,
        InfoMsg::ConfirmReceivedHistory => 3,
        InfoMsg::Nothing => 4,
    }
}

pub open spec fn msg_of_tag(t: u32) -> InfoMsg
    recommends
        t <= 4,
{
    if t == 0 {
        InfoMsg::RequestHistoryLength
    } else if t == 1 {
        InfoMsg::HistoryLength
    } else if t == 2 {
        InfoMsg::RequestHistory
    } else if t == 3 {
        InfoMsg::ConfirmReceivedHistory
    } else {
        InfoMsg::Nothing
    }
}

/// The eight bytes of a control record: tag word, then the number.
pub open spec fn info_bytes(d: InfoData) -> Seq<u8> {
    u32_le_bytes(msg_tag(d.msg)) + u32_le_bytes(u32_of_i32(d.number))
}

/// A byte string is a control frame when it has the fixed size and its tag
/// word names one of the five control messages.
pub open spec fn valid_info_frame(b: Seq<u8>) -> bool {
    &&& b.len() == CONTROL_FRAME_SIZE
    &&& u32_from_le(b.subrange(0, 4)) <= 4
}

pub open spec fn parse_info(b: Seq<u8>) -> InfoData
    recommends
        valid_info_frame(b),
{
    InfoData {
        msg: msg_of_tag(u32_from_le(b.subrange(0, 4))),
        number: i32_of_u32(u32_from_le(b.subrange(4, 8))),
    }
}

fn tag_of_msg(m: InfoMsg) -> (r: u32)
    ensures
        r == msg_tag(m),
{
    match m {
        InfoMsg::RequestHistoryLength => 0,
        InfoMsg::HistoryLength => 1,
        InfoMsg::RequestHistory => 2,
        InfoMsg::ConfirmReceivedHistory => 3,
        InfoMsg::Nothing => 4,
    }
}

fn msg_from_tag(t: u32) -> (r: InfoMsg)
    requires
        t <= 4,
    ensures
        r == msg_of_tag(t),
{
    if t == 0 {
        InfoMsg::RequestHistoryLength
    } else if t == 1 {
        InfoMsg::HistoryLength
    } else if t == 2 {
        InfoMsg::RequestHistory
    } else if t == 3 {
        InfoMsg::ConfirmReceivedHistory
    } else {
        InfoMsg::Nothing
    }
}

/// Encodes one control record as its fixed eight-byte frame.
pub fn encode_info(d: &InfoData) -> (r: Vec<u8>)
    ensures
        r@ == info_bytes(*d),
        r@.len() == CONTROL_FRAME_SIZE,
{
    let mut out: Vec<u8> = Vec::new();
    push_u32_le(&mut out, tag_of_msg(d.msg));
    push_u32_le(&mut out, i32_to_u32(d.number));
    proof {
        assert(out@ =~= info_bytes(*d));
    }
    out
}

/// Decodes a control frame; `None` exactly on byte strings that are not a
/// well-formed control frame.
pub fn decode_info(b: &Vec<u8>) -> (r: Option<InfoData>)
    ensures
        r.is_some() <==> valid_info_frame(b@),
        r matches Some(d) ==> d == parse_info(b@),
{
    if b.len() != CONTROL_FRAME_SIZE {
        return None;
    }
    let tag = read_u32_le(b, 0);
    if tag > 4 {
        return None;
    }
    let number = u32_to_i32(read_u32_le(b, 4));
    Some(InfoData { msg: msg_from_tag(tag), number })
}

// ---------------------------------------------------------------------------
// Data frames
// ---------------------------------------------------------------------------

pub open spec fn bool_byte(b: bool) -> u8 {
    if b {
        1
    } else {
        0
    }
}

/// The fixed layout of a data record: name, pixel count, pixels, three flag
/// bytes around the signed length word, then the timestamp.
pub open spec fn record_bytes(m: RecordModel) -> Seq<u8>
    recommends
        wf_record(m),
{
    m.name + u64_le_bytes(PIXELS_LEN as u64) + m.pixels + seq![
        bool_byte(m.request_history),
        bool_byte(m.request_history_length),
    ] + u32_le_bytes(u32_of_i32(m.history_length)) + seq![bool_byte(m.confirm_history)]
        + u128_le_bytes(m.timestamp)
}

/// A byte string is a data frame when it has the fixed size, its pixel count
/// is the fixed payload size, and its three flag bytes are boolean.
pub open spec fn valid_record_frame(b: Seq<u8>) -> bool {
    &&& b.len() == DATA_FRAME_SIZE
    &&& u64_from_le(b.subrange(24, 32)) == PIXELS_LEN
    &&& (b[40032] == 0 || b[40032] == 1)
    &&& (b[40033] == 0 || b[40033] == 1)
    &&& (b[40038] == 0 || b[40038] == 1)
}

pub open spec fn parse_record(b: Seq<u8>) -> RecordModel
    recommends
        valid_record_frame(b),
{
    RecordModel {
        name: b.subrange(0, 24),
        pixels: b.subrange(32, 40032),
        request_history: b[40032] == 1,
        request_history_length: b[40033] == 1,
        history_length: i32_of_u32(u32_from_le(b.subrange(40034, 40038))),
        confirm_history: b[40038] == 1,
        timestamp: u128_from_le(b.subrange(40039, 40055)),
    }
}

pub proof fn lemma_record_bytes_len(m: RecordModel)
    requires
        wf_record(m),
    ensures
        record_bytes(m).len() == DATA_FRAME_SIZE,
{
}

pub proof fn lemma_record_round_trip(m: RecordModel)
    requires
        wf_record(m),
    ensures
        valid_record_frame(record_bytes(m)),
        parse_record(record_bytes(m)) == m,
{
    let b = record_bytes(m);
    assert(b.subrange(0, 24) =~= m.name);
    assert(b.subrange(24, 32) =~= u64_le_bytes(PIXELS_LEN as u64));
    assert(b.subrange(32, 40032) =~= m.pixels);
    assert(b[40032] == bool_byte(m.request_history));
    assert(b[40033] == bool_byte(m.request_history_length));
    assert(b.subrange(40034, 40038) =~= u32_le_bytes(u32_of_i32(m.history_length)));
    assert(b[40038] == bool_byte(m.confirm_history));
    assert(b.subrange(40039, 40055) =~= u128_le_bytes(m.timestamp));
    lemma_u64_le_round_trip(PIXELS_LEN as u64);
    lemma_u32_le_round_trip(u32_of_i32(m.history_length));
    lemma_i32_round_trip(m.history_length);
    lemma_u128_le_round_trip(m.timestamp);
}

pub proof fn lemma_record_extract(b: Seq<u8>)
    requires
        valid_record_frame(b),
    ensures
        wf_record(parse_record(b)),
        record_bytes(parse_record(b)) == b,
{
    lemma_u64_le_extract(b.subrange(24, 32));
    lemma_u32_round_trip(u32_from_le(b.subrange(40034, 40038)));
    lemma_u32_le_extract(b.subrange(40034, 40038));
    lemma_u128_le_extract(b.subrange(40039, 40055));
    assert(record_bytes(parse_record(b)) =~= b);
}

/// Appends every byte of `b` to `out`.
pub fn push_bytes(out: &mut Vec<u8>, b: &Vec<u8>)
    ensures
        final(out)@ == old(out)@ + b@,
{
    let mut i: usize = 0;
    while i < b.len()
        invariant
            i <= b@.len(),
            out@ == old(out)@ + b@.subrange(0, i as int),
        decreases b@.len() - i,
    {
        out.push(b[i]);
        proof {
            assert(out@ =~= old(out)@ + b@.subrange(0, i as int + 1));
        }
        i = i + 1;
    }
    proof {
        assert(out@ =~= old(out)@ + b@);
    }
}

/// Copies the bytes of `b` from `start` (inclusive) to `end` (exclusive).
pub fn copy_range(b: &Vec<u8>, start: usize, end: usize) -> (r: Vec<u8>)
    requires
        start <= end <= b@.len(),
    ensures
        r@ == b@.subrange(start as int, end as int),
{
    let mut out: Vec<u8> = Vec::new();
    let mut i: usize = start;
    while i < end
        invariant
            start <= i <= end <= b@.len(),
            out@ == b@.subrange(start as int, i as int),
        decreases end - i,
    {
        out.push(b[i]);
        proof {
            assert(out@ =~= b@.subrange(start as int, i as int + 1));
        }
        i = i + 1;
    }
    out
}

fn push_bool(out: &mut Vec<u8>, b: bool)
    ensures
        final(out)@ == old(out)@ + seq![bool_byte(b)],
{
    if b {
        out.push(1);
    } else {
        out.push(0);
    }
    assert(out@ =~= old(out)@ + seq![bool_byte(b)]);
}

/// Encodes one data record as its fixed frame.
pub fn encode_record(r: &TextureData) -> (out: Vec<u8>)
    requires
        wf_record(r@),
    ensures
        out@ == record_bytes(r@),
        out@.len() == DATA_FRAME_SIZE,
{
    let mut out: Vec<u8> = Vec::new();
    push_bytes(&mut out, &r.name);
    push_u64_le(&mut out, PIXELS_LEN as u64);
    push_bytes(&mut out, &r.data);
    push_bool(&mut out, r.request_history);
    push_bool(&mut out, r.request_history_length);
    push_u32_le(&mut out, i32_to_u32(r.history_length));
    push_bool(&mut out, r.confirm_history);
    push_u128_le(&mut out, r.timestamp);
    proof {
        assert(out@ =~= record_bytes(r@));
        lemma_record_bytes_len(r@);
    }
    out
}

fn read_bool(b: &Vec<u8>, off: usize) -> (r: Option<bool>)
    requires
        off < b@.len(),
    ensures
        r.is_some() <==> (b@[off as int] == 0 || b@[off as int] == 1),
        r matches Some(v) ==> bool_byte(v) == b@[off as int],
{
    if b[off] == 0 {
        Some(false)
    } else if b[off] == 1 {
        Some(true)
    } else {
        None
    }
}

/// Decodes the data frame that starts at `off`; `None` exactly when those
/// bytes are not a well-formed data frame.
pub fn decode_record_at(b: &Vec<u8>, off: usize) -> (r: Option<TextureData>)
    requires
        off + DATA_FRAME_SIZE <= b@.len(),
    ensures
        r.is_some() <==> valid_record_frame(b@.subrange(off as int, off as int + DATA_FRAME_SIZE)),
        r matches Some(rec) ==> {
            &&& wf_record(rec@)
            &&& rec@ == parse_record(b@.subrange(off as int, off as int + DATA_FRAME_SIZE))
        },
{
    let ghost frame = b@.subrange(off as int, off as int + DATA_FRAME_SIZE);
    let n: usize = b.len();
    let pixel_count = read_u64_le(b, off + 24);
    proof {
        assert(b@.subrange(off as int + 24, off as int + 32) =~= frame.subrange(24, 32));
    }
    if pixel_count != PIXELS_LEN as u64 {
        return None;
    }
    let request_history = match read_bool(b, off + 40032) {
        Some(v) => v,
        None => {
            return None;
        },
    };
    let request_history_length = match read_bool(b, off + 40033) {
        Some(v) => v,
        None => {
            return None;
        },
    };
    let confirm_history = match read_bool(b, off + 40038) {
        Some(v) => v,
        None => {
            return None;
        },
    };
    let name = copy_range(b, off, off + 24);
    let data = copy_range(b, off + 32, off + 40032);
    let history_length = u32_to_i32(read_u32_le(b, off + 40034));
    let timestamp = read_u128_le(b, off + 40039);
    proof {
        assert(b@.subrange(off as int, off as int + 24) =~= frame.subrange(0, 24));
        assert(b@.subrange(off as int + 32, off as int + 40032) =~= frame.subrange(32, 40032));
        assert(b@.subrange(off as int + 40034, off as int + 40038) =~= frame.subrange(
            40034,
            40038,
        ));
        assert(b@.subrange(off as int + 40039, off as int + 40055) =~= frame.subrange(
            40039,
            40055,
        ));
        assert(frame[40032] == b@[off as int + 40032]);
        assert(frame[40033] == b@[off as int + 40033]);
        assert(frame[40038] == b@[off as int + 40038]);
    }
    Some(
        TextureData {
            name,
            data,
            request_history,
            request_history_length,
            history_length,
            confirm_history,
            timestamp,
        },
    )
}

/// Decodes a whole buffer as one data frame.
pub fn decode_record(b: &Vec<u8>) -> (r: Option<TextureData>)
    ensures
        r.is_some() <==> valid_record_frame(b@),
        r matches Some(rec) ==> {
            &&& wf_record(rec@)
            &&& rec@ == parse_record(b@)
        },
{
    if b.len() != DATA_FRAME_SIZE {
        return None;
    }
    let r = decode_record_at(b, 0);
    proof {
        assert(b@.subrange(0, DATA_FRAME_SIZE as int) =~= b@);
    }
    r
}

// ---------------------------------------------------------------------------
// History snapshot frames
// ---------------------------------------------------------------------------

/// The data frames of a history snapshot, one after another.
pub open spec fn records_bytes(s: Seq<RecordModel>) -> Seq<u8>
    decreases s.len(),
{
    if s.len() == 0 {
        Seq::empty()
    } else {
        record_bytes(s[0]) + records_bytes(s.drop_first())
    }
}

/// A history snapshot: the record count, then that many data frames.
pub open spec fn history_bytes(s: Seq<RecordModel>) -> Seq<u8>
    recommends
        s.len() <= u64::MAX,
{
    u64_le_bytes(s.len() as u64) + records_bytes(s)
}

pub open spec fn history_count(b: Seq<u8>) -> u64
    recommends
        b.len() >= 8,
{
    u64_from_le(b.subrange(0, 8))
}

/// The bytes of the `i`th data frame inside a history snapshot.
pub open spec fn record_frame_at(b: Seq<u8>, i: int) -> Seq<u8> {
    b.subrange(8 + i * (DATA_FRAME_SIZE as int), 8 + (i + 1) * (DATA_FRAME_SIZE as int))
}

/// A byte string is a history snapshot when its length matches its count
/// word and every contained data frame is well formed.
pub open spec fn valid_history_frame(b: Seq<u8>) -> bool {
    &&& b.len() >= 8
    &&& b.len() == 8 + history_count(b) * (DATA_FRAME_SIZE as int)
    &&& forall|i: int|
        0 <= i < history_count(b) ==> valid_record_frame(#[trigger] record_frame_at(b, i))
}

pub open spec fn parse_history(b: Seq<u8>) -> Seq<RecordModel>
    recommends
        valid_history_frame(b),
{
    Seq::new(history_count(b) as nat, |i: int| parse_record(record_frame_at(b, i)))
}

pub proof fn lemma_records_bytes_len(s: Seq<RecordModel>)
    requires
        forall|i: int| 0 <= i < s.len() ==> wf_record(#[trigger] s[i]),
    ensures
        records_bytes(s).len() == s.len() * (DATA_FRAME_SIZE as int),
    decreases s.len(),
{
    if s.len() > 0 {
        lemma_records_bytes_len(s.drop_first());
    }
}

pub proof fn lemma_records_bytes_push(s: Seq<RecordModel>, m: RecordModel)
    ensures
        records_bytes(s.push(m)) == records_bytes(s) + record_bytes(m),
    decreases s.len(),
{
    if s.len() == 0 {
        assert(s.push(m)[0] == m);
        assert(s.push(m).drop_first() =~= Seq::<RecordModel>::empty());
        assert(records_bytes(Seq::<RecordModel>::empty()) =~= Seq::<u8>::empty());
        assert(records_bytes(s.push(m)) =~= records_bytes(s) + record_bytes(m));
    } else {
        let sp = s.push(m);
        assert(sp[0] == s[0]);
        assert(sp.drop_first() =~= s.drop_first().push(m));
        lemma_records_bytes_push(s.drop_first(), m);
        assert(records_bytes(sp) == record_bytes(sp[0]) + records_bytes(sp.drop_first()));
        assert(records_bytes(s) == record_bytes(s[0]) + records_bytes(s.drop_first()));
        assert(records_bytes(sp) =~= records_bytes(s) + record_bytes(m));
    }
}

pub proof fn lemma_records_bytes_frame(s: Seq<RecordModel>, i: int)
    requires
        forall|j: int| 0 <= j < s.len() ==> wf_record(#[trigger] s[j]),
        0 <= i < s.len(),
    ensures
        records_bytes(s).subrange(i * (DATA_FRAME_SIZE as int), (i + 1) * (DATA_FRAME_SIZE as int))
            == record_bytes(s[i]),
    decreases i,
{
    let d = DATA_FRAME_SIZE as int;
    lemma_record_bytes_len(s[0]);
    lemma_records_bytes_len(s.drop_first());
    if i == 0 {
        assert(records_bytes(s).subrange(0, d) =~= record_bytes(s[0]));
    } else {
        lemma_records_bytes_frame(s.drop_first(), i - 1);
        assert(records_bytes(s).subrange(i * d, (i + 1) * d) =~= records_bytes(
            s.drop_first(),
        ).subrange((i - 1) * d, i * d));
    }
}

/// Writing a history snapshot and reading it back yields the same records in
/// the same order.
pub proof fn lemma_history_round_trip(s: Seq<RecordModel>)
    requires
        forall|i: int| 0 <= i < s.len() ==> wf_record(#[trigger] s[i]),
        s.len() <= u64::MAX,
    ensures
        valid_history_frame(history_bytes(s)),
        parse_history(history_bytes(s)) == s,
{
    let b = history_bytes(s);
    let d = DATA_FRAME_SIZE as int;
    lemma_records_bytes_len(s);
    assert(b.subrange(0, 8) =~= u64_le_bytes(s.len() as u64));
    lemma_u64_le_round_trip(s.len() as u64);
    assert(history_count(b) == s.len());
    assert forall|i: int| 0 <= i < s.len() implies record_frame_at(b, i) == record_bytes(
        s[i],
    ) by {
        lemma_records_bytes_frame(s, i);
        assert(record_frame_at(b, i) =~= records_bytes(s).subrange(i * d, (i + 1) * d));
    }
    assert forall|i: int|
        0 <= i < history_count(b) implies valid_record_frame(#[trigger] record_frame_at(
        b,
        i,
    )) by {
        lemma_record_round_trip(s[i]);
    }
    assert forall|i: int| 0 <= i < s.len() implies parse_record(record_frame_at(b, i)) == s[i] by {
        lemma_record_round_trip(s[i]);
    }
    assert(parse_history(b) =~= s);
}

/// Encodes a whole history as one snapshot frame.
pub fn encode_history(v: &Vec<TextureData>) -> (out: Vec<u8>)
    requires
        forall|i: int| 0 <= i < v@.len() ==> wf_record(#[trigger] v@[i]@),
    ensures
        out@ == history_bytes(models(v@)),
{
    let mut out: Vec<u8> = Vec::new();
    push_u64_le(&mut out, v.len() as u64);
    let mut i: usize = 0;
    while i < v.len()
        invariant
            i <= v@.len(),
            forall|j: int| 0 <= j < v@.len() ==> wf_record(#[trigger] v@[j]@),
            out@ == u64_le_bytes(v@.len() as u64) + records_bytes(models(v@).subrange(0, i as int)),
        decreases v@.len() - i,
    {
        let bytes = encode_record(&v[i]);
        push_bytes(&mut out, &bytes);
        proof {
            assert(models(v@).subrange(0, i as int + 1) =~= models(v@).subrange(0, i as int).push(
                v@[i as int]@,
            ));
            lemma_records_bytes_push(models(v@).subrange(0, i as int), v@[i as int]@);
            assert(out@ =~= u64_le_bytes(v@.len() as u64) + records_bytes(
                models(v@).subrange(0, i as int + 1),
            ));
        }
        i = i + 1;
    }
    proof {
        assert(models(v@).subrange(0, v@.len() as int) =~= models(v@));
    }
    out
}

/// Decodes a history snapshot; `None` exactly on byte strings that are not a
/// well-formed snapshot frame.
pub fn decode_history(b: &Vec<u8>) -> (r: Option<Vec<TextureData>>)
    ensures
        r.is_some() <==> valid_history_frame(b@),
        r matches Some(v) ==> {
            &&& models(v@) == parse_history(b@)
            &&& forall|i: int| 0 <= i < v@.len() ==> wf_record(#[trigger] v@[i]@)
        },
{
    if b.len() < 8 {
        return None;
    }
    let count = read_u64_le(b, 0);
    let rest = b.len() - 8;
    let n = rest / DATA_FRAME_SIZE;
    proof {
        vstd::arithmetic::div_mod::lemma_fundamental_div_mod(rest as int, DATA_FRAME_SIZE as int);
    }
    if rest % DATA_FRAME_SIZE != 0 || count != n as u64 {
        proof {
            if valid_history_frame(b@) {
                vstd::arithmetic::div_mod::lemma_fundamental_div_mod_converse(
                    rest as int,
                    DATA_FRAME_SIZE as int,
                    count as int,
                    0,
                );
            }
        }
        return None;
    }
    let mut out: Vec<TextureData> = Vec::new();
    let mut i: usize = 0;
    while i < n
        invariant
            i <= n,
            8 + n * (DATA_FRAME_SIZE as int) == b@.len(),
            8 + n * (DATA_FRAME_SIZE as int) <= usize::MAX as int,
            n as u64 == history_count(b@),
            out@.len() == i,
            forall|j: int| 0 <= j < i ==> valid_record_frame(#[trigger] record_frame_at(b@, j)),
            forall|j: int|
                0 <= j < i ==> wf_record(#[trigger] out@[j]@) && out@[j]@ == parse_record(
                    record_frame_at(b@, j),
                ),
        decreases n - i,
    {
        proof {
            assert((i as int) * (DATA_FRAME_SIZE as int) + (DATA_FRAME_SIZE as int) <= (n as int)
                * (DATA_FRAME_SIZE as int)) by (nonlinear_arith)
                requires
                    (i as int) < (n as int),
                    0 < (DATA_FRAME_SIZE as int),
            ;
        }
        let off = 8 + i * DATA_FRAME_SIZE;
        match decode_record_at(b, off) {
            Some(rec) => {
                proof {
                    assert(b@.subrange(off as int, off as int + DATA_FRAME_SIZE) =~= record_frame_at(
                        b@,
                        i as int,
                    ));
                }
                out.push(rec);
            },
            None => {
                proof {
                    assert(b@.subrange(off as int, off as int + DATA_FRAME_SIZE) =~= record_frame_at(
                        b@,
                        i as int,
                    ));
                }
                return None;
            },
        }
        i = i + 1;
    }
    proof {
        assert(models(out@) =~= parse_history(b@));
    }
    Some(out)
}

} // verus!
