//! The binary frame codec.
//!
//! A frame is a fixed 12-byte header — opcode, three reserved bytes, the
//! opaque correlation state (little-endian), the payload length
//! (little-endian) — followed by that many payload bytes. `check` tells
//! whether a complete, decodable frame is buffered; `parse` performs the
//! same walk and materializes the typed request. Payload bodies use
//! length-prefixed varint fields; unknown fields are skipped, a
//! malformed body is a recoverable decode failure, an unknown opcode is
//! fatal.

use vstd::prelude::*;

use crate::messages::{
    CancelRequest, ConnectRequest, CreateRequest, JoinRequest, RequestData, ResponseData,
    SetTileRequest,
};
use vstd::utf8::{decode_utf8, valid_utf8};

verus! {

/// How reading a frame can fail: more bytes are needed; the payload is
/// present but malformed (drop it, keep the connection); the opcode is
/// unknown (fatal for the connection).
#[derive(Debug, Clone, Copy, PartialEq, Eq, Structural)]
pub enum FrameError {
    Incomplete,
    DecodeFailed,
    UnknownOp,
}

/// The operation tag carried in a frame's first byte.
#[derive(Debug, Clone, Copy, PartialEq, Eq, Structural, Hash)]
pub enum Operation {
    Connect,
    Disconnect,
    Heartbeat,
    CreateLobby,
    JoinLobby,
    QuitLobby,
    ListLobby,
    Ready,
    StartGame,
    SetTile,
    FinishTurn,
    GetNewCard,
    Cancel,
    Exit,
}

/// The operation a tag byte names, if any.
pub open spec fn spec_op_of(v: u8) -> Option<Operation> {
    if v == 0 {
        Some(Operation::Connect)
    } else if v == 1 {
        Some(Operation::Disconnect)
    } else if v == 2 {
        Some(Operation::Heartbeat)
    } else if v == 3 {
        Some(Operation::CreateLobby)
    } else if v == 4 {
        Some(Operation::JoinLobby)
    } else if v == 5 {
        Some(Operation::QuitLobby)
    } else if v == 6 {
        Some(Operation::ListLobby)
    } else if v == 7 {
        Some(Operation::Ready)
    } else if v == 8 {
        Some(Operation::StartGame)
    } else if v == 9 {
        Some(Operation::SetTile)
    } else if v == 10 {
        Some(Operation::FinishTurn)
    } else if v == 11 {
        Some(Operation::GetNewCard)
    } else if v == 12 {
        Some(Operation::Cancel)
    } else if v == 13 {
        Some(Operation::Exit)
    } else {
        None
    }
}

impl Operation {
    /// Maps a tag byte to its operation; an out-of-range tag is the
    /// fatal unknown-opcode case.
    pub fn from_u8(v: u8) -> (r: Option<Operation>)
        ensures
            r == spec_op_of(v),
    {
        match v {
            0 => Some(Operation::Connect),
            1 => Some(Operation::Disconnect),
            2 => Some(Operation::Heartbeat),
            3 => Some(Operation::CreateLobby),
            4 => Some(Operation::JoinLobby),
            5 => Some(Operation::QuitLobby),
            6 => Some(Operation::ListLobby),
            7 => Some(Operation::Ready),
            8 => Some(Operation::StartGame),
            9 => Some(Operation::SetTile),
            10 => Some(Operation::FinishTurn),
            11 => Some(Operation::GetNewCard),
            12 => Some(Operation::Cancel),
            13 => Some(Operation::Exit),
            _ => None,
        }
    }

    /// The operation a decoded request belongs to.
    pub fn of_request(data: &RequestData) -> (r: Operation)
        ensures
            r == spec_op_of_request(*data),
    {
        match data {
            RequestData::Connect(_) => Operation::Connect,
            RequestData::Disconnect => Operation::Disconnect,
            RequestData::Heartbeat => Operation::Heartbeat,
            RequestData::CreateLobby(_) => Operation::CreateLobby,
            RequestData::JoinLobby(_) => Operation::JoinLobby,
            RequestData::QuitLobby => Operation::QuitLobby,
            RequestData::ListLobby => Operation::ListLobby,
            RequestData::Ready => Operation::Ready,
            RequestData::StartGame => Operation::StartGame,
            RequestData::SetTile(_) => Operation::SetTile,
            RequestData::FinishTurn => Operation::FinishTurn,
            RequestData::GetNewCard => Operation::GetNewCard,
            RequestData::Cancel(_) => Operation::Cancel,
            RequestData::Exit => Operation::Exit,
        }
    }
}

pub open spec fn spec_op_of_request(data: RequestData) -> Operation {
    match data {
        RequestData::Connect(_) => Operation::Connect,
        RequestData::Disconnect => Operation::Disconnect,
        RequestData::Heartbeat => Operation::Heartbeat,
        RequestData::CreateLobby(_) => Operation::CreateLobby,
        RequestData::JoinLobby(_) => Operation::JoinLobby,
        RequestData::QuitLobby => Operation::QuitLobby,
        RequestData::ListLobby => Operation::ListLobby,
        RequestData::Ready => Operation::Ready,
        RequestData::StartGame => Operation::StartGame,
        RequestData::SetTile(_) => Operation::SetTile,
        RequestData::FinishTurn => Operation::FinishTurn,
        RequestData::GetNewCard => Operation::GetNewCard,
        RequestData::Cancel(_) => Operation::Cancel,
        RequestData::Exit => Operation::Exit,
    }
}

/// A little-endian 32-bit value at `pos`.
pub open spec fn le32(b: Seq<u8>, pos: int) -> int {
    b[pos] + 0x100 * b[pos + 1] + 0x10000 * b[pos + 2] + 0x1000000 * b[pos + 3]
}

/// One byte, or `Incomplete` when the buffer ends first.
pub fn get_u8(src: &Vec<u8>, pos: usize) -> (r: Result<u8, FrameError>)
    ensures
        match r {
            Ok(v) => pos < src@.len() && v == src@[pos as int],
            Err(e) => e == FrameError::Incomplete && pos >= src@.len(),
        },
{
    if pos < src.len() {
        Ok(src[pos])
    } else {
        Err(FrameError::Incomplete)
    }
}

/// A little-endian `u32`, or `Incomplete` when fewer than four bytes
/// remain.
pub fn get_u32(src: &Vec<u8>, pos: usize) -> (r: Result<u32, FrameError>)
    ensures
        match r {
            Ok(v) => pos + 4 <= src@.len() && v == le32(src@, pos as int),
            Err(e) => e == FrameError::Incomplete && pos + 4 > src@.len(),
        },
{
    if src.len() >= 4 && pos <= src.len() - 4 {
        let b0 = src[pos] as u32;
        let b1 = src[pos + 1] as u32;
        let b2 = src[pos + 2] as u32;
        let b3 = src[pos + 3] as u32;
        Ok(b0 + 0x100 * b1 + 0x10000 * b2 + 0x1000000 * b3)
    } else {
        Err(FrameError::Incomplete)
    }
}

// ----------------------------- varints ---------------------------------

/// One past the first byte at or after `pos` without its continuation
/// bit (the buffer's end when every byte has it).
pub open spec fn varint_end(b: Seq<u8>, pos: int) -> int
    decreases b.len() - pos when 0 <= pos <= b.len()
{
    if pos >= b.len() {
        pos
    } else if b[pos] < 0x80 {
        pos + 1
    } else {
        varint_end(b, pos + 1)
    }
}

/// The varint at `pos` is well formed: it terminates, spans at most ten
/// bytes, and a ten-byte one fits in 64 bits.
pub open spec fn varint_valid(b: Seq<u8>, pos: int) -> bool {
    let e = varint_end(b, pos);
    &&& pos < e <= b.len()
    &&& b[e - 1] < 0x80
    &&& e - pos <= 10
    &&& (e - pos == 10 ==> b[pos + 9] < 2)
}

/// The value the varint at `pos` encodes: base-128, least significant
/// group first.
pub open spec fn varint_value(b: Seq<u8>, pos: int) -> nat
    decreases b.len() - pos when 0 <= pos <= b.len()
{
    if pos >= b.len() {
        0
    } else if b[pos] < 0x80 {
        b[pos] as nat
    } else {
        (b[pos] - 0x80) as nat + 128 * varint_value(b, pos + 1)
    }
}


/// Position after an unknown field's value of the given wire type, when
/// it lies within the payload.
pub open spec fn skip_value(b: Seq<u8>, pos: int, end: int, wire: nat) -> Option<int> {
    if wire == 0 {
        if varint_valid(b, pos) && varint_end(b, pos) <= end {
            Some(varint_end(b, pos))
        } else {
            None
        }
    } else if wire == 1 {
        if pos + 8 <= end {
            Some(pos + 8)
        } else {
            None
        }
    } else if wire == 2 {
        if varint_valid(b, pos) && varint_end(b, pos) <= end && varint_end(b, pos) + varint_value(
            b,
            pos,
        ) <= end {
            Some(varint_end(b, pos) + varint_value(b, pos))
        } else {
            None
        }
    } else if wire == 5 {
        if pos + 4 <= end {
            Some(pos + 4)
        } else {
            None
        }
    } else {
        None
    }
}

/// Decoding a body whose known fields `1 ..= nfields` are varint `u32`s,
/// last value winning; unknown fields are skipped by wire type.
pub open spec fn u32_msg_rec(b: Seq<u8>, pos: int, end: int, nfields: nat, acc: (u32, u32, u32))
    -> Option<(u32, u32, u32)>
    decreases end - pos when pos <= end <= b.len()
{
    if pos >= end {
        Some(acc)
    } else if !(varint_valid(b, pos) && varint_end(b, pos) <= end) {
        None
    } else {
        let key = varint_value(b, pos);
        let p2 = varint_end(b, pos);
        let fno = key / 8;
        let wire = key % 8;
        if 1 <= fno <= nfields {
            if wire != 0 {
                None
            } else if !(varint_valid(b, p2) && varint_end(b, p2) <= end) {
                None
            } else {
                let v = (varint_value(b, p2) % 0x100000000) as u32;
                let p3 = varint_end(b, p2);
                let acc2 = if fno == 1 {
                    (v, acc.1, acc.2)
                } else if fno == 2 {
                    (acc.0, v, acc.2)
                } else {
                    (acc.0, acc.1, v)
                };
                u32_msg_rec(b, p3, end, nfields, acc2)
            }
        } else {
            match skip_value(b, p2, end, wire) {
                Some(p3) => u32_msg_rec(b, p3, end, nfields, acc),
                None => None,
            }
        }
    }
}

/// Decoding a body whose known field 1 is a length-prefixed UTF-8
/// string, last value winning; unknown fields are skipped.
pub open spec fn string_msg_rec(b: Seq<u8>, pos: int, end: int, acc: Seq<char>) -> Option<
    Seq<char>,
>
    decreases end - pos when pos <= end <= b.len()
{
    if pos >= end {
        Some(acc)
    } else if !(varint_valid(b, pos) && varint_end(b, pos) <= end) {
        None
    } else {
        let key = varint_value(b, pos);
        let p2 = varint_end(b, pos);
        let fno = key / 8;
        let wire = key % 8;
        if fno == 1 {
            if wire != 2 {
                None
            } else if !(varint_valid(b, p2) && varint_end(b, p2) <= end && varint_end(b, p2)
                + varint_value(b, p2) <= end) {
                None
            } else {
                let l = varint_value(b, p2);
                let p3 = varint_end(b, p2);
                let field = b.subrange(p3, p3 + l);
                if valid_utf8(field) {
                    string_msg_rec(b, p3 + l, end, decode_utf8(field))
                } else {
                    None
                }
            }
        } else {
            match skip_value(b, p2, end, wire) {
                Some(p3) => string_msg_rec(b, p3, end, acc),
                None => None,
            }
        }
    }
}

/// The bytes `a .. b`, copied out.
fn copy_range(data: &Vec<u8>, a: usize, b: usize) -> (r: Vec<u8>)
    requires
        a <= b <= data@.len(),
    ensures
        r@ == data@.subrange(a as int, b as int),
{
    let mut r: Vec<u8> = Vec::new();
    let mut i: usize = a;
    while i < b
        invariant
            a <= i <= b <= data@.len(),
            r@ == data@.subrange(a as int, i as int),
        decreases b - i,
    {
        r.push(data[i]);
        proof {
            assert(r@ =~= data@.subrange(a as int, i + 1));
        }
        i = i + 1;
    }
    r
}

/// Reads the varint at `pos`, bounded by `end`; yields the value and the
/// position after it.
fn read_varint(data: &Vec<u8>, pos: usize, end: usize) -> (r: Option<(u64, usize)>)
    requires
        pos <= end <= data@.len(),
    ensures
        match r {
            Some((v, p2)) => varint_valid(data@, pos as int) && varint_end(data@, pos as int)
                <= end && v as nat == varint_value(data@, pos as int) && p2 == varint_end(
                data@,
                pos as int,
            ),
            None => !(varint_valid(data@, pos as int) && varint_end(data@, pos as int) <= end),
        },
{
    match crate::ext::decode_varint_at(data, pos) {
        Ok((v, remaining)) => {
            let p2 = data.len() - remaining;
            if p2 <= end {
                Some((v, p2))
            } else {
                None
            }
        },
        Err(_) => None,
    }
}

/// Decodes a body of known varint `u32` fields `1 ..= nfields`.
fn decode_u32_msg(data: &Vec<u8>, start: usize, end: usize, nfields: u32) -> (r: Option<
    (u32, u32, u32),
>)
    requires
        start <= end <= data@.len(),
        1 <= nfields <= 3,
    ensures
        r == u32_msg_rec(data@, start as int, end as int, nfields as nat, (0u32, 0u32, 0u32)),
{
    let mut acc: (u32, u32, u32) = (0, 0, 0);
    let mut pos = start;
    loop
        invariant
            start <= pos <= end <= data@.len(),
            1 <= nfields <= 3,
            u32_msg_rec(data@, start as int, end as int, nfields as nat, (0u32, 0u32, 0u32))
                == u32_msg_rec(data@, pos as int, end as int, nfields as nat, acc),
        decreases end - pos,
    {
        if pos >= end {
            return Some(acc);
        }
        let key = match read_varint(data, pos, end) {
            Some(kv) => kv,
            None => {
                return None;
            },
        };
        let fno = key.0 / 8;
        let wire = key.0 % 8;
        let p2 = key.1;
        if 1 <= fno && fno <= nfields as u64 {
            if wire != 0 {
                return None;
            }
            let val = match read_varint(data, p2, end) {
                Some(kv) => kv,
                None => {
                    return None;
                },
            };
            let v = (val.0 % 0x100000000) as u32;
            let p3 = val.1;
            if fno == 1 {
                acc = (v, acc.1, acc.2);
            } else if fno == 2 {
                acc = (acc.0, v, acc.2);
            } else {
                acc = (acc.0, acc.1, v);
            }
            pos = p3;
        } else {
            // skip an unknown field by wire type
            if wire == 0 {
                let sk = match read_varint(data, p2, end) {
                    Some(kv) => kv,
                    None => {
                        return None;
                    },
                };
                pos = sk.1;
            } else if wire == 1 {
                if end - p2 < 8 {
                    return None;
                }
                pos = p2 + 8;
            } else if wire == 2 {
                let sk = match read_varint(data, p2, end) {
                    Some(kv) => kv,
                    None => {
                        return None;
                    },
                };
                let room = (end - sk.1) as u64;
                if room < sk.0 {
                    return None;
                }
                pos = sk.1 + (sk.0 as usize);
            } else if wire == 5 {
                if end - p2 < 4 {
                    return None;
                }
                pos = p2 + 4;
            } else {
                return None;
            }
        }
    }
}


/// Decodes a body whose known field 1 is a length-prefixed UTF-8 string.
fn decode_string_msg(data: &Vec<u8>, start: usize, end: usize) -> (r: Option<String>)
    requires
        start <= end <= data@.len(),
    ensures
        match r {
            Some(s) => string_msg_rec(data@, start as int, end as int, Seq::empty()) == Some(s@),
            None => string_msg_rec(data@, start as int, end as int, Seq::<char>::empty()) is None,
        },
{
    let mut acc = String::new();
    let mut pos = start;
    loop
        invariant
            start <= pos <= end <= data@.len(),
            string_msg_rec(data@, start as int, end as int, Seq::empty()) == string_msg_rec(
                data@,
                pos as int,
                end as int,
                acc@,
            ),
        decreases end - pos,
    {
        if pos >= end {
            return Some(acc);
        }
        let key = match read_varint(data, pos, end) {
            Some(kv) => kv,
            None => {
                return None;
            },
        };
        let fno = key.0 / 8;
        let wire = key.0 % 8;
        let p2 = key.1;
        if fno == 1 {
            if wire != 2 {
                return None;
            }
            let lenv = match read_varint(data, p2, end) {
                Some(kv) => kv,
                None => {
                    return None;
                },
            };
            let p3 = lenv.1;
            let room = (end - p3) as u64;
            if room < lenv.0 {
                return None;
            }
            let l = lenv.0 as usize;
            let field = copy_range(data, p3, p3 + l);
            match crate::ext::string_from_utf8(field) {
                Ok(sval) => {
                    acc = sval;
                },
                Err(_) => {
                    return None;
                },
            }
            pos = p3 + l;
        } else {
            if wire == 0 {
                let sk = match read_varint(data, p2, end) {
                    Some(kv) => kv,
                    None => {
                        return None;
                    },
                };
                pos = sk.1;
            } else if wire == 1 {
                if end - p2 < 8 {
                    return None;
                }
                pos = p2 + 8;
            } else if wire == 2 {
                let sk = match read_varint(data, p2, end) {
                    Some(kv) => kv,
                    None => {
                        return None;
                    },
                };
                let room = (end - sk.1) as u64;
                if room < sk.0 {
                    return None;
                }
                pos = sk.1 + (sk.0 as usize);
            } else if wire == 5 {
                if end - p2 < 4 {
                    return None;
                }
                pos = p2 + 4;
            } else {
                return None;
            }
        }
    }
}

// ------------------------------ frames ----------------------------------

/// The payload of this operation decodes.
pub open spec fn payload_ok(op: Operation, b: Seq<u8>, start: int, end: int) -> bool {
    match op {
        Operation::Connect => string_msg_rec(b, start, end, Seq::empty()) is Some,
        Operation::CreateLobby => u32_msg_rec(b, start, end, 1, (0u32, 0u32, 0u32)) is Some,
        Operation::JoinLobby => u32_msg_rec(b, start, end, 1, (0u32, 0u32, 0u32)) is Some,
        Operation::SetTile => u32_msg_rec(b, start, end, 3, (0u32, 0u32, 0u32)) is Some,
        Operation::Cancel => u32_msg_rec(b, start, end, 2, (0u32, 0u32, 0u32)) is Some,
        _ => true,
    }
}

/// The typed request `data` is what this operation's payload decodes to.
pub open spec fn request_matches(data: RequestData, op: Operation, b: Seq<u8>, start: int, end: int)
    -> bool {
    match op {
        Operation::Connect => data matches RequestData::Connect(cr) && string_msg_rec(
            b,
            start,
            end,
            Seq::empty(),
        ) == Some(cr.name@),
        Operation::Disconnect => data is Disconnect,
        Operation::Heartbeat => data is Heartbeat,
        Operation::CreateLobby => data matches RequestData::CreateLobby(cr) && (u32_msg_rec(
            b,
            start,
            end,
            1,
            (0u32, 0u32, 0u32),
        ) matches Some(t) && t.0 == cr.max_players),
        Operation::JoinLobby => data matches RequestData::JoinLobby(jr) && (u32_msg_rec(
            b,
            start,
            end,
            1,
            (0u32, 0u32, 0u32),
        ) matches Some(t) && t.0 == jr.lobby_id),
        Operation::QuitLobby => data is QuitLobby,
        Operation::ListLobby => data is ListLobby,
        Operation::Ready => data is Ready,
        Operation::StartGame => data is StartGame,
        Operation::SetTile => data matches RequestData::SetTile(sr) && u32_msg_rec(
            b,
            start,
            end,
            3,
            (0u32, 0u32, 0u32),
        ) == Some((sr.x, sr.y, sr.card_index)),
        Operation::FinishTurn => data is FinishTurn,
        Operation::GetNewCard => data is GetNewCard,
        Operation::Cancel => data matches RequestData::Cancel(cr) && (u32_msg_rec(
            b,
            start,
            end,
            2,
            (0u32, 0u32, 0u32),
        ) matches Some(t) && t.0 == cr.x && t.1 == cr.y),
        Operation::Exit => data is Exit,
    }
}

/// What checking the buffer must conclude: the whole frame's length when
/// a complete, decodable frame is present, or how reading it fails.
pub open spec fn spec_check(b: Seq<u8>) -> Result<int, FrameError> {
    if b.len() == 0 {
        Err(FrameError::Incomplete)
    } else if spec_op_of(b[0]) is None {
        Err(FrameError::UnknownOp)
    } else if b.len() < 12 {
        Err(FrameError::Incomplete)
    } else if b.len() < 12 + le32(b, 8) {
        Err(FrameError::Incomplete)
    } else if !payload_ok(spec_op_of(b[0]).unwrap(), b, 12, 12 + le32(b, 8)) {
        Err(FrameError::DecodeFailed)
    } else {
        Ok(12 + le32(b, 8))
    }
}

/// A request frame: the echoed correlation state and the typed body.
#[derive(Debug)]
pub struct Request {
    state: u32,
    data: RequestData,
}

impl Request {
    pub closed spec fn spec_state(&self) -> u32 {
        self.state
    }

    pub closed spec fn spec_data(&self) -> RequestData {
        self.data
    }

    pub fn new(state: u32, data: RequestData) -> (r: Request)
        ensures
            r.spec_state() == state,
            r.spec_data() == data,
    {
        Request { state, data }
    }

    pub fn get_state(&self) -> (s: u32)
        ensures
            s == self.spec_state(),
    {
        self.state
    }

    pub fn get_data(&self) -> (d: &RequestData)
        ensures
            *d == self.spec_data(),
    {
        &self.data
    }
}

/// A response frame: the correlation state it echoes and the typed body.
#[derive(Debug)]
pub struct Response {
    state: u32,
    data: ResponseData,
}

impl Response {
    pub closed spec fn spec_state(&self) -> u32 {
        self.state
    }

    pub closed spec fn spec_data(&self) -> ResponseData {
        self.data
    }

    pub fn new(state: u32, data: ResponseData) -> (r: Response)
        ensures
            r.spec_state() == state,
            r.spec_data() == data,
    {
        Response { state, data }
    }

    pub fn get_state(&self) -> (s: u32)
        ensures
            s == self.spec_state(),
    {
        self.state
    }

    pub fn get_data(&self) -> (d: &ResponseData)
        ensures
            *d == self.spec_data(),
    {
        &self.data
    }
}

/// One wire message, either direction.
#[derive(Debug)]
pub enum Frame {
    Request(Request),
    Response(Response),
}

impl Frame {
    /// Whether a complete frame sits at the buffer's front: its total
    /// length if so, else why not — `Incomplete` asks for more bytes, a
    /// decode failure is dropped by the caller, an unknown opcode ends
    /// the connection.
    pub fn check(src: &Vec<u8>) -> (r: Result<usize, FrameError>)
        ensures
            match r {
                Ok(l) => spec_check(src@) == Ok::<int, FrameError>(l as int),
                Err(e) => spec_check(src@) == Err::<int, FrameError>(e),
            },
    {
        let op_byte = match get_u8(src, 0) {
            Ok(v) => v,
            Err(e) => {
                return Err(e);
            },
        };
        let op = match Operation::from_u8(op_byte) {
            Some(op) => op,
            None => {
                return Err(FrameError::UnknownOp);
            },
        };
        if src.len() < 12 {
            return Err(FrameError::Incomplete);
        }
        let payload_len = match get_u32(src, 8) {
            Ok(v) => v,
            Err(e) => {
                return Err(e);
            },
        };
        if src.len() - 12 < payload_len as usize {
            return Err(FrameError::Incomplete);
        }
        let start: usize = 12;
        let end: usize = 12 + payload_len as usize;
        let ok = match op {
            Operation::Connect => decode_string_msg(src, start, end).is_some(),
            Operation::CreateLobby => decode_u32_msg(src, start, end, 1).is_some(),
            Operation::JoinLobby => decode_u32_msg(src, start, end, 1).is_some(),
            Operation::SetTile => decode_u32_msg(src, start, end, 3).is_some(),
            Operation::Cancel => decode_u32_msg(src, start, end, 2).is_some(),
            _ => true,
        };
        if ok {
            Ok(end)
        } else {
            Err(FrameError::DecodeFailed)
        }
    }

    /// The same walk as `check`, materializing the typed request. The
    /// correlation state is read out to be echoed on the response,
    /// untouched.
    pub fn parse(src: &Vec<u8>) -> (r: Result<Frame, FrameError>)
        ensures
            match r {
                Ok(f) => {
                    &&& spec_check(src@) is Ok
                    &&& f matches Frame::Request(req)
                    &&& req.spec_state() == le32(src@, 4)
                    &&& request_matches(
                        req.spec_data(),
                        spec_op_of(src@[0]).unwrap(),
                        src@,
                        12,
                        12 + le32(src@, 8),
                    )
                },
                Err(e) => spec_check(src@) == Err::<int, FrameError>(e),
            },
    {
        let op_byte = match get_u8(src, 0) {
            Ok(v) => v,
            Err(e) => {
                return Err(e);
            },
        };
        let op = match Operation::from_u8(op_byte) {
            Some(op) => op,
            None => {
                return Err(FrameError::UnknownOp);
            },
        };
        if src.len() < 12 {
            return Err(FrameError::Incomplete);
        }
        let state = match get_u32(src, 4) {
            Ok(v) => v,
            Err(e) => {
                return Err(e);
            },
        };
        let payload_len = match get_u32(src, 8) {
            Ok(v) => v,
            Err(e) => {
                return Err(e);
            },
        };
        if src.len() - 12 < payload_len as usize {
            return Err(FrameError::Incomplete);
        }
        let start: usize = 12;
        let end: usize = 12 + payload_len as usize;
        let data = match op {
            Operation::Connect => match decode_string_msg(src, start, end) {
                Some(name) => RequestData::Connect(ConnectRequest { name }),
                None => {
                    return Err(FrameError::DecodeFailed);
                },
            },
            Operation::Disconnect => RequestData::Disconnect,
            Operation::Heartbeat => RequestData::Heartbeat,
            Operation::CreateLobby => match decode_u32_msg(src, start, end, 1) {
                Some(t) => RequestData::CreateLobby(CreateRequest { max_players: t.0 }),
                None => {
                    return Err(FrameError::DecodeFailed);
                },
            },
            Operation::JoinLobby => match decode_u32_msg(src, start, end, 1) {
                Some(t) => RequestData::JoinLobby(JoinRequest { lobby_id: t.0 }),
                None => {
                    return Err(FrameError::DecodeFailed);
                },
            },
            Operation::QuitLobby => RequestData::QuitLobby,
            Operation::ListLobby => RequestData::ListLobby,
            Operation::Ready => RequestData::Ready,
            Operation::StartGame => RequestData::StartGame,
            Operation::SetTile => match decode_u32_msg(src, start, end, 3) {
                Some(t) => RequestData::SetTile(
                    SetTileRequest { x: t.0, y: t.1, card_index: t.2 },
                ),
                None => {
                    return Err(FrameError::DecodeFailed);
                },
            },
            Operation::FinishTurn => RequestData::FinishTurn,
            Operation::GetNewCard => RequestData::GetNewCard,
            Operation::Cancel => match decode_u32_msg(src, start, end, 2) {
                Some(t) => RequestData::Cancel(CancelRequest { x: t.0, y: t.1 }),
                None => {
                    return Err(FrameError::DecodeFailed);
                },
            },
            Operation::Exit => RequestData::Exit,
        };
        Ok(Frame::Request(Request { state, data }))
    }
}

/// Assembles the 12-byte header for a payload of the given length: the
/// opcode, three reserved zero bytes, then the correlation state and the
/// length, both little-endian.
pub fn encode_header(op_byte: u8, state: u32, payload_len: u32) -> (r: Vec<u8>)
    ensures
        r@.len() == 12,
        r@[0] == op_byte,
        le32(r@, 4) == state,
        le32(r@, 8) == payload_len,
{
    let mut r: Vec<u8> = Vec::new();
    r.push(op_byte);
    r.push(0);
    r.push(0);
    r.push(0);
    r.push((state % 0x100) as u8);
    r.push(((state / 0x100) % 0x100) as u8);
    r.push(((state / 0x10000) % 0x100) as u8);
    r.push((state / 0x1000000) as u8);
    r.push((payload_len % 0x100) as u8);
    r.push(((payload_len / 0x100) % 0x100) as u8);
    r.push(((payload_len / 0x10000) % 0x100) as u8);
    r.push((payload_len / 0x1000000) as u8);
    r
}

} // verus!
