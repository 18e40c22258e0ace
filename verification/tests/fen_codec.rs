use chess_tp::board::{Board, Color, Piece, PieceKind, Position};
use chess_tp::fen::{board_from_fen, board_to_fen, piece_from_char, piece_to_char};

fn start_board() -> Board {
    Board::new_standard()
}

fn board_after_e4() -> Board {
    let mut b = Board::new_standard();
    let e2 = Position::new(4, 1).unwrap();
    let e4 = Position::new(4, 3).unwrap();
    b.set_position(e2, None);
    b.set_position(e4, Some(Piece { kind: PieceKind::Pawn, color: Color::White }));
    b
}

#[test]
fn start_board_encodes_to_standard_text() {
    let fen = board_to_fen(&start_board());
    assert_eq!(fen.as_slice(), b"rnbqkbnr/pppppppp/8/8/8/8/PPPPPPPP/RNBQKBNR");
}

#[test]
fn board_after_e4_encodes_with_run_lengths() {
    let fen = board_to_fen(&board_after_e4());
    assert_eq!(fen.as_slice(), b"rnbqkbnr/pppppppp/8/8/4P3/8/PPPP1PPP/RNBQKBNR");
}

#[test]
fn start_board_round_trips() {
    let b = start_board();
    let fen = board_to_fen(&b);
    let decoded = board_from_fen(fen.as_slice()).unwrap();
    assert!(decoded == b);
}

#[test]
fn board_after_e4_round_trips() {
    let b = board_after_e4();
    let fen = board_to_fen(&b);
    let decoded = board_from_fen(fen.as_slice()).unwrap();
    assert!(decoded == b);
}

#[test]
fn empty_board_round_trips() {
    let b = Board::new_empty();
    let fen = board_to_fen(&b);
    assert_eq!(fen.as_slice(), b"8/8/8/8/8/8/8/8");
    let decoded = board_from_fen(fen.as_slice()).unwrap();
    assert!(decoded == b);
}

#[test]
fn decode_rejects_too_few_ranks() {
    assert!(board_from_fen(b"rnbqkbnr/pppppppp/8/8/8/8/PPPPPPPP").is_none());
}

#[test]
fn decode_rejects_too_many_ranks() {
    assert!(board_from_fen(b"8/8/8/8/8/8/8/8/8").is_none());
}

#[test]
fn decode_rejects_overfull_rank() {
    assert!(board_from_fen(b"rnbqkbnr2/pppppppp/8/8/8/8/PPPPPPPP/RNBQKBNR").is_none());
}

#[test]
fn decode_rejects_underfull_rank() {
    assert!(board_from_fen(b"rnbqkbn/pppppppp/8/8/8/8/PPPPPPPP/RNBQKBNR").is_none());
}

#[test]
fn decode_rejects_unknown_byte() {
    assert!(board_from_fen(b"rnbqkbnr/pppppppp/8/8/8/8/PPPPPPPP/RNBQKBNX").is_none());
    assert!(board_from_fen(b"9/8/8/8/8/8/8/8").is_none());
    assert!(board_from_fen(b"0/8/8/8/8/8/8/8").is_none());
}

#[test]
fn decode_rejects_empty_input() {
    assert!(board_from_fen(b"").is_none());
}

#[test]
fn piece_letters_cover_both_colors() {
    let wq = Piece { kind: PieceKind::Queen, color: Color::White };
    let bn = Piece { kind: PieceKind::Knight, color: Color::Black };
    assert_eq!(piece_to_char(wq), b'Q');
    assert_eq!(piece_to_char(bn), b'n');
    assert_eq!(piece_from_char(b'Q'), Some(wq));
    assert_eq!(piece_from_char(b'n'), Some(bn));
    assert_eq!(piece_from_char(b'x'), None);
    assert_eq!(piece_from_char(b'1'), None);
}

#[test]
fn every_piece_letter_round_trips() {
    let kinds = [
        PieceKind::Pawn,
        PieceKind::Knight,
        PieceKind::Bishop,
        PieceKind::Rook,
        PieceKind::Queen,
        PieceKind::King,
    ];
    let colors = [Color::White, Color::Black];
    for kind in kinds {
        for color in colors {
            let piece = Piece { kind, color };
            assert_eq!(piece_from_char(piece_to_char(piece)), Some(piece));
        }
    }
}
