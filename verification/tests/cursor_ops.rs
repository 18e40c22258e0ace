use chess_tp::board::{Board, PieceKind, Position};
use chess_tp::cursor::{GameStateType, MessageBuilder, MessageReader};

#[test]
fn builder_fills_with_padding() {
    let b: MessageBuilder<4> = MessageBuilder::new(Some(7)).unwrap();
    assert_eq!(b.build(), vec![7u8, 7, 7, 7]);
    let b: MessageBuilder<3> = MessageBuilder::new(None).unwrap();
    assert_eq!(b.build(), vec![0u8, 0, 0]);
}

#[test]
fn builder_writes_advance_the_cursor() {
    let mut b: MessageBuilder<4> = MessageBuilder::new(None).unwrap();
    b.write(1).unwrap();
    b.skip(1).unwrap();
    b.write_slice(&[2, 3]).unwrap();
    assert_eq!(b.build(), vec![1u8, 0, 2, 3]);
}

#[test]
fn builder_overflow_fails_and_leaves_buffer_unchanged() {
    let mut b: MessageBuilder<4> = MessageBuilder::new(None).unwrap();
    b.write(9).unwrap();
    assert!(b.write_slice(&[1, 2, 3, 4]).is_err());
    assert!(b.skip(4).is_err());
    b.write_slice(&[5, 6, 7]).unwrap();
    assert!(b.write(8).is_err());
    assert_eq!(b.build(), vec![9u8, 5, 6, 7]);
}

#[test]
fn builder_writes_positions_as_file_and_rank() {
    let mut b: MessageBuilder<4> = MessageBuilder::new(None).unwrap();
    b.write_pos(Position::new(0, 0).unwrap()).unwrap();
    b.write_pos(Position::new(7, 7).unwrap()).unwrap();
    assert_eq!(b.build(), b"A1H8".to_vec());
}

#[test]
fn builder_position_overflow_fails_atomically() {
    let mut b: MessageBuilder<3> = MessageBuilder::new(None).unwrap();
    b.write(b'x').unwrap();
    b.write(b'y').unwrap();
    assert!(b.write_pos(Position::new(0, 0).unwrap()).is_err());
    assert!(b.write_game_state(GameStateType::Normal).is_err());
    assert_eq!(b.build(), vec![b'x', b'y', 0]);
}

#[test]
fn builder_writes_game_state_tags() {
    let mut b: MessageBuilder<12> = MessageBuilder::new(None).unwrap();
    b.write_game_state(GameStateType::Normal).unwrap();
    b.write_game_state(GameStateType::WhiteWon).unwrap();
    b.write_game_state(GameStateType::BlackWon).unwrap();
    b.write_game_state(GameStateType::Draw).unwrap();
    assert_eq!(b.build(), b"0-01-00-11-1".to_vec());
}

#[test]
fn builder_writes_board_text() {
    let mut b: MessageBuilder<20> = MessageBuilder::new(None).unwrap();
    b.write_board(&Board::new_empty()).unwrap();
    assert_eq!(&b.build()[..15], b"8/8/8/8/8/8/8/8");
}

#[test]
fn reader_reads_bytes_in_order() {
    let data = [1u8, 2, 3];
    let mut r = MessageReader::new(&data);
    assert_eq!(r.read(), Ok(1));
    assert_eq!(r.read(), Ok(2));
    assert_eq!(r.read(), Ok(3));
    assert!(r.read().is_err());
}

#[test]
fn reader_underflow_fails_without_consuming() {
    let data = [1u8, 2, 3];
    let mut r = MessageReader::new(&data);
    assert!(r.skip(4).is_err());
    assert!(r.read_slice(4).is_err());
    assert_eq!(r.read_slice(2), Ok(&[1u8, 2][..]));
    assert!(r.skip(2).is_err());
    assert_eq!(r.read(), Ok(3));
    assert!(r.read().is_err());
}

#[test]
fn reader_check_and_skip_requires_the_byte() {
    let data = *b"ab";
    let mut r = MessageReader::new(&data);
    assert!(r.check_and_skip(b'x').is_err());
    assert_eq!(r.check_and_skip(b'a'), Ok(()));
    assert_eq!(r.check_and_skip(b'b'), Ok(()));
    assert!(r.check_and_skip(b'b').is_err());
}

#[test]
fn reader_check_rest_sees_all_remaining_bytes() {
    let data = [0u8, 0, 0];
    let mut r = MessageReader::new(&data);
    assert_eq!(r.check_rest(0), Ok(()));
    let data2 = [0u8, 9, 0];
    let mut r2 = MessageReader::new(&data2);
    assert!(r2.check_rest(0).is_err());
}

#[test]
fn reader_read_up_to_stops_before_the_delimiter() {
    let data = *b"abc:rest";
    let mut r = MessageReader::new(&data);
    assert_eq!(r.read_up_to(b':'), Ok(&b"abc"[..]));
    assert_eq!(r.check_and_skip(b':'), Ok(()));
    assert_eq!(r.read_slice(4), Ok(&b"rest"[..]));
}

#[test]
fn reader_read_up_to_fails_without_the_delimiter() {
    let data = *b"abc";
    let mut r = MessageReader::new(&data);
    assert!(r.read_up_to(b':').is_err());
    assert_eq!(r.read(), Ok(b'a'));
}

#[test]
fn reader_positions_round_trip() {
    let data = *b"A1H8";
    let mut r = MessageReader::new(&data);
    assert_eq!(r.read_pos(), Ok(Position::new(0, 0).unwrap()));
    assert_eq!(r.read_pos(), Ok(Position::new(7, 7).unwrap()));
}

#[test]
fn reader_rejects_out_of_range_positions() {
    let mut r = MessageReader::new(b"I1");
    assert!(r.read_pos().is_err());
    let mut r2 = MessageReader::new(b"A9");
    assert!(r2.read_pos().is_err());
    let mut r3 = MessageReader::new(b"A");
    assert!(r3.read_pos().is_err());
}

#[test]
fn promotion_bytes_round_trip_for_each_kind() {
    let kinds = [PieceKind::Knight, PieceKind::Bishop, PieceKind::Rook, PieceKind::Queen];
    for kind in kinds {
        let mut b: MessageBuilder<1> = MessageBuilder::new(None).unwrap();
        b.write_promotion_type(Some(kind)).unwrap();
        let bytes = b.build();
        let mut r = MessageReader::new(bytes.as_slice());
        assert_eq!(r.read_promotion_type(), Ok(Some(kind)));
    }
}

#[test]
fn promotion_none_round_trips() {
    let mut b: MessageBuilder<1> = MessageBuilder::new(None).unwrap();
    b.write_promotion_type(None).unwrap();
    let bytes = b.build();
    assert_eq!(bytes, vec![b'0']);
    let mut r = MessageReader::new(bytes.as_slice());
    assert_eq!(r.read_promotion_type(), Ok(None));
}

#[test]
fn promotion_accepts_either_case_and_rejects_others() {
    let mut r = MessageReader::new(b"qQ");
    assert_eq!(r.read_promotion_type(), Ok(Some(PieceKind::Queen)));
    assert_eq!(r.read_promotion_type(), Ok(Some(PieceKind::Queen)));
    let mut r2 = MessageReader::new(b"x");
    assert!(r2.read_promotion_type().is_err());
    assert_eq!(r2.read(), Ok(b'x'));
}

#[test]
fn game_state_tags_round_trip() {
    let states = [
        GameStateType::Normal,
        GameStateType::WhiteWon,
        GameStateType::BlackWon,
        GameStateType::Draw,
    ];
    for state in states {
        let mut b: MessageBuilder<3> = MessageBuilder::new(None).unwrap();
        b.write_game_state(state).unwrap();
        let bytes = b.build();
        let mut r = MessageReader::new(bytes.as_slice());
        assert_eq!(r.read_game_state(), Ok(state));
    }
}

#[test]
fn game_state_rejects_unknown_tags() {
    let mut r = MessageReader::new(b"2-2");
    assert!(r.read_game_state().is_err());
    let mut r2 = MessageReader::new(b"0+0");
    assert!(r2.read_game_state().is_err());
    let mut r3 = MessageReader::new(b"0-");
    assert!(r3.read_game_state().is_err());
}

#[test]
fn reader_reads_board_arguments() {
    let data = *b"8/8/8/8/8/8/8/8:after";
    let mut r = MessageReader::new(&data);
    let board = r.read_board_argument().unwrap();
    assert!(board == Board::new_empty());
    assert_eq!(r.check_and_skip(b':'), Ok(()));
}

#[test]
fn reader_board_argument_fails_on_bad_text() {
    let data = *b"8/8:after";
    let mut r = MessageReader::new(&data);
    assert!(r.read_board_argument().is_err());
    assert_eq!(r.read(), Ok(b'8'));
}
