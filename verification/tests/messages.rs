use chess_tp::board::{Board, Color, Piece, PieceKind, Position};
use chess_tp::cursor::GameStateType;
use chess_tp::protocol::{BUFFER_SIZE, DecodeError, EncodeError, HalfMoveRequest, Message};

fn board_after_white_e4() -> Board {
    let mut b = Board::new_standard();
    b.set_position(Position::new(4, 1).unwrap(), None);
    b.set_position(
        Position::new(4, 3).unwrap(),
        Some(Piece { kind: PieceKind::Pawn, color: Color::White }),
    );
    b
}

fn e2_e4_message() -> Message {
    Message::ChessMove {
        player: Some(Color::White),
        chess_move: HalfMoveRequest::Standard {
            source: Position::new(4, 1).unwrap(),
            dest: Position::new(4, 3).unwrap(),
        },
        new_game_state: GameStateType::Normal,
        new_board: board_after_white_e4(),
    }
}

#[test]
fn sample_encode_pins_the_layout() {
    let encoded = e2_e4_message().encode().unwrap();
    let expected_head: &[u8] = b"MWSE2E400-0:rnbqkbnr/pppppppp/8/8/4P3/8/PPPP1PPP/RNBQKBNR:";
    assert_eq!(encoded.len(), BUFFER_SIZE);
    assert_eq!(&encoded[..expected_head.len()], expected_head);
    for &byte in &encoded[expected_head.len()..] {
        assert_eq!(byte, 0);
    }
}

#[test]
fn every_encoding_is_buffer_size() {
    let quit = Message::ChessQuit { payload: String::from("bye") };
    assert_eq!(quit.encode().unwrap().len(), BUFFER_SIZE);
    assert_eq!(e2_e4_message().encode().unwrap().len(), BUFFER_SIZE);
}

#[test]
fn standard_move_round_trips() {
    let m = e2_e4_message();
    let encoded = m.encode().unwrap();
    let decoded = Message::decode(encoded.as_slice()).unwrap();
    assert_eq!(decoded, m);
}

#[test]
fn promotion_move_round_trips() {
    let mut board = Board::new_empty();
    board.set_position(
        Position::new(2, 7).unwrap(),
        Some(Piece { kind: PieceKind::Knight, color: Color::White }),
    );
    let m = Message::ChessMove {
        player: Some(Color::White),
        chess_move: HalfMoveRequest::Promotion { column: 2, kind: PieceKind::Knight },
        new_game_state: GameStateType::Normal,
        new_board: board,
    };
    let encoded = m.encode().unwrap();
    let decoded = Message::decode(encoded.as_slice()).unwrap();
    assert_eq!(decoded, m);
}

#[test]
fn finished_move_round_trips() {
    let m = Message::ChessMove {
        player: Some(Color::Black),
        chess_move: HalfMoveRequest::Standard {
            source: Position::new(3, 7).unwrap(),
            dest: Position::new(7, 3).unwrap(),
        },
        new_game_state: GameStateType::BlackWon,
        new_board: Board::new_standard(),
    };
    let encoded = m.encode().unwrap();
    let decoded = Message::decode(encoded.as_slice()).unwrap();
    assert_eq!(decoded, m);
}

#[test]
fn anonymous_move_round_trips() {
    let m = Message::ChessMove {
        player: None,
        chess_move: HalfMoveRequest::Standard {
            source: Position::new(0, 0).unwrap(),
            dest: Position::new(0, 1).unwrap(),
        },
        new_game_state: GameStateType::Draw,
        new_board: Board::new_empty(),
    };
    let encoded = m.encode().unwrap();
    let decoded = Message::decode(encoded.as_slice()).unwrap();
    assert_eq!(decoded, m);
}

#[test]
fn quit_round_trips() {
    let m = Message::ChessQuit { payload: String::from("Player quit the game") };
    let encoded = m.encode().unwrap();
    let decoded = Message::decode(encoded.as_slice()).unwrap();
    assert_eq!(decoded, m);
}

#[test]
fn empty_quit_round_trips() {
    let m = Message::ChessQuit { payload: String::new() };
    let encoded = m.encode().unwrap();
    let decoded = Message::decode(encoded.as_slice()).unwrap();
    assert_eq!(decoded, m);
}

#[test]
fn longest_quit_round_trips() {
    let payload: String = std::iter::repeat('x').take(BUFFER_SIZE - 2).collect();
    let m = Message::ChessQuit { payload };
    let encoded = m.encode().unwrap();
    let decoded = Message::decode(encoded.as_slice()).unwrap();
    assert_eq!(decoded, m);
}

#[test]
fn overlong_quit_fails_with_capacity() {
    let payload: String = std::iter::repeat('x').take(BUFFER_SIZE - 1).collect();
    let m = Message::ChessQuit { payload };
    assert_eq!(m.encode(), Err(EncodeError::Capacity));
}

#[test]
fn quit_with_nul_fails_with_invalid_payload() {
    let m = Message::ChessQuit { payload: String::from("a\u{0}b") };
    assert_eq!(m.encode(), Err(EncodeError::InvalidPayload));
}

#[test]
fn quit_with_non_ascii_fails_with_invalid_payload() {
    let m = Message::ChessQuit { payload: String::from("adjö") };
    assert_eq!(m.encode(), Err(EncodeError::InvalidPayload));
}

#[test]
fn sample_decode_rejects_unknown_game_state_tag() {
    let mut encoded = e2_e4_message().encode().unwrap();
    assert_eq!(&encoded[8..11], b"0-0");
    encoded[8] = b'2';
    encoded[10] = b'2';
    assert_eq!(Message::decode(encoded.as_slice()), Err(DecodeError::Format));
}

#[test]
fn decode_rejects_malformed_board_with_codec_error() {
    let mut encoded = e2_e4_message().encode().unwrap();
    encoded[12] = b'x';
    assert_eq!(Message::decode(encoded.as_slice()), Err(DecodeError::Codec));
}

#[test]
fn decode_rejects_wrong_size_buffers() {
    assert_eq!(Message::decode(b"MW"), Err(DecodeError::Format));
    let too_long = vec![0u8; BUFFER_SIZE + 1];
    assert_eq!(Message::decode(too_long.as_slice()), Err(DecodeError::Format));
}

#[test]
fn decode_rejects_unknown_message_tag() {
    let buf = vec![b'X'; BUFFER_SIZE];
    assert_eq!(Message::decode(buf.as_slice()), Err(DecodeError::Format));
}

#[test]
fn decode_rejects_unknown_player_byte() {
    let mut encoded = e2_e4_message().encode().unwrap();
    encoded[1] = b'Z';
    assert_eq!(Message::decode(encoded.as_slice()), Err(DecodeError::Format));
}

#[test]
fn decode_rejects_bad_square_bytes() {
    let mut encoded = e2_e4_message().encode().unwrap();
    encoded[3] = b'I';
    assert_eq!(Message::decode(encoded.as_slice()), Err(DecodeError::Format));
}

#[test]
fn decode_rejects_pawn_promotion() {
    let mut board = Board::new_empty();
    board.set_position(
        Position::new(2, 7).unwrap(),
        Some(Piece { kind: PieceKind::Queen, color: Color::White }),
    );
    let m = Message::ChessMove {
        player: Some(Color::White),
        chess_move: HalfMoveRequest::Promotion { column: 2, kind: PieceKind::Queen },
        new_game_state: GameStateType::Normal,
        new_board: board,
    };
    let mut encoded = m.encode().unwrap();
    assert_eq!(encoded[4], b'q');
    encoded[4] = b'p';
    assert_eq!(Message::decode(encoded.as_slice()), Err(DecodeError::Format));
}

#[test]
fn decode_rejects_missing_padding() {
    let mut encoded = e2_e4_message().encode().unwrap();
    encoded[BUFFER_SIZE - 1] = 7;
    assert_eq!(Message::decode(encoded.as_slice()), Err(DecodeError::Format));
}
