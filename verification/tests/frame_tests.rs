use wordboard::frame::{encode_header, Frame, FrameError, Operation, Request};
use wordboard::messages::GameError;
use wordboard::messages::{RequestData, ResponseData};

fn frame_bytes(op: u8, state: u32, payload: &[u8]) -> Vec<u8> {
    let mut bytes = encode_header(op, state, payload.len() as u32);
    bytes.extend_from_slice(payload);
    bytes
}

#[test]
fn check_empty_buffer_is_incomplete() {
    let buf: Vec<u8> = Vec::new();
    assert_eq!(Frame::check(&buf), Err(FrameError::Incomplete));
}

#[test]
fn check_unknown_opcode_is_fatal() {
    let buf = frame_bytes(14, 0, &[]);
    assert_eq!(Frame::check(&buf), Err(FrameError::UnknownOp));
}

#[test]
fn check_short_header_is_incomplete() {
    let buf = vec![2u8, 0, 0, 0, 1];
    assert_eq!(Frame::check(&buf), Err(FrameError::Incomplete));
}

#[test]
fn check_truncated_payload_is_incomplete() {
    // a connect frame that announces four payload bytes but carries two
    let mut buf = encode_header(0, 7, 4);
    buf.extend_from_slice(&[0x0a, 0x02]);
    assert_eq!(Frame::check(&buf), Err(FrameError::Incomplete));
}

#[test]
fn check_complete_bodyless_frame_passes() {
    let buf = frame_bytes(2, 99, &[]);
    assert_eq!(Frame::check(&buf), Ok(12));
}

#[test]
fn check_reports_whole_frame_length() {
    // connect with name "ab": field 1, length-prefixed
    let buf = frame_bytes(0, 1, &[0x0a, 0x02, b'a', b'b']);
    assert_eq!(Frame::check(&buf), Ok(16));
}

#[test]
fn check_malformed_payload_is_recoverable_decode_failure() {
    // the inner length runs past the payload's end
    let buf = frame_bytes(0, 1, &[0x0a, 0x05, b'a']);
    assert_eq!(Frame::check(&buf), Err(FrameError::DecodeFailed));
}

#[test]
fn check_invalid_utf8_name_is_decode_failure() {
    let buf = frame_bytes(0, 1, &[0x0a, 0x01, 0xff]);
    assert_eq!(Frame::check(&buf), Err(FrameError::DecodeFailed));
}

fn parse_request(buf: &Vec<u8>) -> Request {
    match Frame::parse(buf).unwrap() {
        Frame::Request(req) => req,
        Frame::Response(_) => panic!("parse yielded a response"),
    }
}

#[test]
fn parse_echoes_the_correlation_state() {
    let buf = frame_bytes(2, 0xDEAD_BEEF, &[]);
    let req = parse_request(&buf);
    assert_eq!(req.get_state(), 0xDEAD_BEEF);
    assert!(matches!(req.get_data(), RequestData::Heartbeat));
}

#[test]
fn parse_connect_reads_the_name() {
    let buf = frame_bytes(0, 1, &[0x0a, 0x04, b't', b'e', b's', b't']);
    let req = parse_request(&buf);
    match req.get_data() {
        RequestData::Connect(cr) => assert_eq!(cr.name, "test"),
        other => panic!("wrong request: {:?}", other),
    }
}

#[test]
fn parse_connect_empty_payload_defaults_to_empty_name() {
    let buf = frame_bytes(0, 1, &[]);
    let req = parse_request(&buf);
    match req.get_data() {
        RequestData::Connect(cr) => assert_eq!(cr.name, ""),
        other => panic!("wrong request: {:?}", other),
    }
}

#[test]
fn parse_create_lobby_reads_max_players() {
    // field 1, varint 8
    let buf = frame_bytes(3, 1, &[0x08, 0x08]);
    let req = parse_request(&buf);
    match req.get_data() {
        RequestData::CreateLobby(cr) => assert_eq!(cr.max_players, 8),
        other => panic!("wrong request: {:?}", other),
    }
}

#[test]
fn parse_set_tile_reads_three_fields_in_any_order() {
    // x = 3 (field 1), card_index = 300 (field 3, two varint bytes),
    // y = 25 (field 2), deliberately out of order
    let buf = frame_bytes(9, 1, &[0x18, 0xac, 0x02, 0x08, 0x03, 0x10, 0x19]);
    let req = parse_request(&buf);
    match req.get_data() {
        RequestData::SetTile(sr) => {
            assert_eq!(sr.x, 3);
            assert_eq!(sr.y, 25);
            assert_eq!(sr.card_index, 300);
        }
        other => panic!("wrong request: {:?}", other),
    }
}

#[test]
fn parse_cancel_reads_coordinates() {
    let buf = frame_bytes(12, 1, &[0x08, 0x05, 0x10, 0x07]);
    let req = parse_request(&buf);
    match req.get_data() {
        RequestData::Cancel(cr) => {
            assert_eq!(cr.x, 5);
            assert_eq!(cr.y, 7);
        }
        other => panic!("wrong request: {:?}", other),
    }
}

#[test]
fn parse_join_skips_unknown_fields() {
    // an unknown field 2 (varint), then field 1 = 6
    let buf = frame_bytes(4, 1, &[0x10, 0x2a, 0x08, 0x06]);
    let req = parse_request(&buf);
    match req.get_data() {
        RequestData::JoinLobby(jr) => assert_eq!(jr.lobby_id, 6),
        other => panic!("wrong request: {:?}", other),
    }
}

#[test]
fn parse_last_value_wins_for_repeated_fields() {
    let buf = frame_bytes(3, 1, &[0x08, 0x04, 0x08, 0x07]);
    let req = parse_request(&buf);
    match req.get_data() {
        RequestData::CreateLobby(cr) => assert_eq!(cr.max_players, 7),
        other => panic!("wrong request: {:?}", other),
    }
}

#[test]
fn operation_tags_round_trip() {
    let all = [
        Operation::Connect,
        Operation::Disconnect,
        Operation::Heartbeat,
        Operation::CreateLobby,
        Operation::JoinLobby,
        Operation::QuitLobby,
        Operation::ListLobby,
        Operation::Ready,
        Operation::StartGame,
        Operation::SetTile,
        Operation::FinishTurn,
        Operation::GetNewCard,
        Operation::Cancel,
        Operation::Exit,
    ];
    for (tag, op) in all.iter().enumerate() {
        assert_eq!(Operation::from_u8(tag as u8), Some(*op));
    }
    assert_eq!(Operation::from_u8(14), None);
}

#[test]
fn each_bodyless_operation_parses_to_its_request() {
    let cases: [(u8, fn(&RequestData) -> bool); 8] = [
        (1, |d| matches!(d, RequestData::Disconnect)),
        (2, |d| matches!(d, RequestData::Heartbeat)),
        (5, |d| matches!(d, RequestData::QuitLobby)),
        (6, |d| matches!(d, RequestData::ListLobby)),
        (7, |d| matches!(d, RequestData::Ready)),
        (8, |d| matches!(d, RequestData::StartGame)),
        (10, |d| matches!(d, RequestData::FinishTurn)),
        (13, |d| matches!(d, RequestData::Exit)),
    ];
    for (tag, check) in cases {
        let buf = frame_bytes(tag, 5, &[]);
        let req = parse_request(&buf);
        assert!(check(req.get_data()), "tag {}", tag);
    }
}

#[test]
fn encode_header_lays_fields_out_little_endian() {
    let h = encode_header(9, 0x0102_0304, 0x0000_0010);
    assert_eq!(h.len(), 12);
    assert_eq!(h[0], 9);
    assert_eq!(&h[1..4], &[0, 0, 0]);
    assert_eq!(&h[4..8], &[0x04, 0x03, 0x02, 0x01]);
    assert_eq!(&h[8..12], &[0x10, 0, 0, 0]);
}

#[test]
fn response_frame_keeps_state_and_data() {
    let resp = wordboard::frame::Response::new(
        41,
        ResponseData::Heartbeat(wordboard::messages::HeartbeatResponse { success: true }),
    );
    assert_eq!(resp.get_state(), 41);
    match resp.get_data() {
        ResponseData::Heartbeat(h) => assert!(h.success),
        other => panic!("wrong data: {:?}", other),
    }
}

#[test]
fn error_messages_match_their_variants() {
    assert_eq!(GameError::PlayerNotFound.message(), "Player not found");
    assert_eq!(GameError::NotYourTurn.message(), "Player not in his turn");
    assert_eq!(GameError::InvalidWord.message(), "invalid word");
    assert_eq!(
        GameError::HasShuffled.message(),
        "Player has shuffled in this turn"
    );
}
