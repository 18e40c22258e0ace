use chess_tp::board::{Board, Color, Piece, PieceKind, Position, is_dark_square};
use chess_tp::cursor::GameStateType;
use chess_tp::protocol::{HalfMoveRequest, Message};
use chess_tp::session::{
    MoveOutcome, ReconcileAction, Session, SessionStatus, promotion_selection_iter,
    promotion_selection_type,
};

fn start() -> Board {
    Board::new_standard()
}

fn after_e4() -> Board {
    let mut b = Board::new_standard();
    b.set_position(Position::new(4, 1).unwrap(), None);
    b.set_position(
        Position::new(4, 3).unwrap(),
        Some(Piece { kind: PieceKind::Pawn, color: Color::White }),
    );
    b
}

fn after_e3() -> Board {
    let mut b = Board::new_standard();
    b.set_position(Position::new(4, 1).unwrap(), None);
    b.set_position(
        Position::new(4, 2).unwrap(),
        Some(Piece { kind: PieceKind::Pawn, color: Color::White }),
    );
    b
}

fn e2_e4_request() -> HalfMoveRequest {
    HalfMoveRequest::Standard {
        source: Position::new(4, 1).unwrap(),
        dest: Position::new(4, 3).unwrap(),
    }
}

fn assert_ongoing_with(session: &Session, board: &Board, turn: Color) {
    match session.status() {
        SessionStatus::Ongoing { board: b, turn: t } => {
            assert!(b == board);
            assert_eq!(*t, turn);
        },
        _ => panic!("session is not ongoing"),
    }
}

#[test]
fn local_move_produces_the_move_message() {
    let mut sender = Session::new(Some(Color::White), false, start(), Color::White);
    assert!(sender.is_local_player_turn());
    let msg = sender
        .apply_local_move(e2_e4_request(), MoveOutcome::Ongoing { board: after_e4() })
        .expect("a networked move should produce a message");
    match &msg {
        Message::ChessMove { player, chess_move, new_game_state, new_board } => {
            assert_eq!(*player, Some(Color::White));
            assert_eq!(*chess_move, e2_e4_request());
            assert_eq!(*new_game_state, GameStateType::Normal);
            assert!(*new_board == after_e4());
        },
        _ => panic!("expected a move message"),
    }
    assert_ongoing_with(&sender, &after_e4(), Color::Black);
    assert!(!sender.is_local_player_turn());
}

#[test]
fn illegal_move_changes_nothing_and_sends_nothing() {
    let mut sender = Session::new(Some(Color::White), false, start(), Color::White);
    let msg = sender.apply_local_move(e2_e4_request(), MoveOutcome::Illegal);
    assert!(msg.is_none());
    assert_ongoing_with(&sender, &start(), Color::White);
}

#[test]
fn local_game_sends_no_message() {
    let mut sender = Session::new(None, false, start(), Color::White);
    assert!(sender.is_local_player_turn());
    let msg = sender.apply_local_move(e2_e4_request(), MoveOutcome::Ongoing { board: after_e4() });
    assert!(msg.is_none());
    assert_ongoing_with(&sender, &after_e4(), Color::Black);
    assert!(sender.is_local_player_turn());
}

#[test]
fn finishing_move_ends_the_game() {
    let mut sender = Session::new(Some(Color::White), false, start(), Color::White);
    let msg = sender
        .apply_local_move(
            e2_e4_request(),
            MoveOutcome::Finished { board: after_e4(), state: GameStateType::WhiteWon },
        )
        .unwrap();
    match &msg {
        Message::ChessMove { new_game_state, .. } => {
            assert_eq!(*new_game_state, GameStateType::WhiteWon);
        },
        _ => panic!("expected a move message"),
    }
    match sender.status() {
        SessionStatus::Finished { board, state } => {
            assert!(*board == after_e4());
            assert_eq!(*state, GameStateType::WhiteWon);
        },
        _ => panic!("session should be finished"),
    }
    assert_eq!(sender.game_state_type(), GameStateType::WhiteWon);
    assert!(!sender.is_local_player_turn());
}

#[test]
fn matching_replay_is_accepted_and_states_agree() {
    let mut sender = Session::new(Some(Color::White), true, start(), Color::White);
    let msg = sender
        .apply_local_move(e2_e4_request(), MoveOutcome::Ongoing { board: after_e4() })
        .unwrap();
    let mut receiver = Session::new(Some(Color::Black), true, start(), Color::White);
    let action = receiver.handle_message(&msg, MoveOutcome::Ongoing { board: after_e4() });
    assert!(matches!(action, ReconcileAction::Accepted));
    assert_ongoing_with(&receiver, &after_e4(), Color::Black);
    assert_ongoing_with(&sender, &after_e4(), Color::Black);
    assert!(receiver.is_local_player_turn());
}

#[test]
fn strict_mismatch_aborts_with_a_quit_message() {
    let mut sender = Session::new(Some(Color::White), true, start(), Color::White);
    let msg = sender
        .apply_local_move(e2_e4_request(), MoveOutcome::Ongoing { board: after_e4() })
        .unwrap();
    let mut receiver = Session::new(Some(Color::Black), true, start(), Color::White);
    let action = receiver.handle_message(&msg, MoveOutcome::Ongoing { board: after_e3() });
    match action {
        ReconcileAction::AbortAndSend(quit) => match quit {
            Message::ChessQuit { payload } => assert_eq!(payload, "Invalid move"),
            _ => panic!("expected a quit message"),
        },
        _ => panic!("strict mismatch should abort"),
    }
    assert!(matches!(receiver.status(), SessionStatus::Aborted));
    assert!(!receiver.is_local_player_turn());
}

#[test]
fn lenient_mismatch_adopts_the_declared_board() {
    let mut sender = Session::new(Some(Color::White), false, start(), Color::White);
    let msg = sender
        .apply_local_move(e2_e4_request(), MoveOutcome::Ongoing { board: after_e4() })
        .unwrap();
    let mut receiver = Session::new(Some(Color::Black), false, start(), Color::White);
    let action = receiver.handle_message(&msg, MoveOutcome::Ongoing { board: after_e3() });
    assert!(matches!(action, ReconcileAction::AdoptedRemote));
    assert_ongoing_with(&receiver, &after_e4(), Color::Black);
}

#[test]
fn lenient_mismatch_with_terminal_claim_is_unsupported() {
    let msg = Message::ChessMove {
        player: Some(Color::White),
        chess_move: e2_e4_request(),
        new_game_state: GameStateType::WhiteWon,
        new_board: after_e4(),
    };
    let mut receiver = Session::new(Some(Color::Black), false, start(), Color::White);
    let action = receiver.handle_message(&msg, MoveOutcome::Ongoing { board: after_e3() });
    assert!(matches!(action, ReconcileAction::UnsupportedReconstruction));
    assert_ongoing_with(&receiver, &after_e3(), Color::Black);
}

#[test]
fn peer_quit_ends_the_session() {
    let mut receiver = Session::new(Some(Color::Black), true, start(), Color::White);
    let quit = Message::ChessQuit { payload: String::from("bye") };
    let action = receiver.handle_message(&quit, MoveOutcome::Illegal);
    assert!(matches!(action, ReconcileAction::PeerQuit));
    assert!(matches!(receiver.status(), SessionStatus::Aborted));
}

#[test]
fn aborted_sessions_ignore_further_moves() {
    let mut receiver = Session::new(Some(Color::Black), true, start(), Color::White);
    let quit = Message::ChessQuit { payload: String::from("bye") };
    receiver.handle_message(&quit, MoveOutcome::Illegal);
    let msg = Message::ChessMove {
        player: Some(Color::White),
        chess_move: e2_e4_request(),
        new_game_state: GameStateType::Normal,
        new_board: after_e4(),
    };
    let action = receiver.handle_message(&msg, MoveOutcome::Ongoing { board: after_e4() });
    assert!(matches!(action, ReconcileAction::Ignored));
    assert!(matches!(receiver.status(), SessionStatus::Aborted));
}

#[test]
fn turn_alternates_with_the_local_player() {
    let session = Session::new(Some(Color::Black), false, start(), Color::White);
    assert!(!session.is_local_player_turn());
    let session2 = Session::new(Some(Color::Black), false, start(), Color::Black);
    assert!(session2.is_local_player_turn());
    assert_eq!(session.game_state_type(), GameStateType::Normal);
}

#[test]
fn promotion_menu_lists_four_kinds_from_the_far_rank() {
    let square = Position::new(2, 7).unwrap();
    let menu = promotion_selection_iter(Color::White, square);
    assert_eq!(menu.len(), 4);
    assert_eq!(menu[0], (Position::new(2, 7).unwrap(), PieceKind::Queen));
    assert_eq!(menu[1], (Position::new(2, 6).unwrap(), PieceKind::Knight));
    assert_eq!(menu[2], (Position::new(2, 5).unwrap(), PieceKind::Rook));
    assert_eq!(menu[3], (Position::new(2, 4).unwrap(), PieceKind::Bishop));
    let menu_black = promotion_selection_iter(Color::Black, Position::new(5, 0).unwrap());
    assert_eq!(menu_black[0], (Position::new(5, 0).unwrap(), PieceKind::Queen));
    assert_eq!(menu_black[3], (Position::new(5, 3).unwrap(), PieceKind::Bishop));
}

#[test]
fn promotion_click_selects_the_offered_kind() {
    let promotion_square = Position::new(2, 7).unwrap();
    let clicked = Position::new(2, 6).unwrap();
    assert_eq!(
        promotion_selection_type(Color::White, promotion_square, clicked),
        Some(PieceKind::Knight)
    );
    let elsewhere = Position::new(0, 0).unwrap();
    assert_eq!(promotion_selection_type(Color::White, promotion_square, elsewhere), None);
}

#[test]
fn dark_squares_alternate() {
    assert!(is_dark_square((0, 0)));
    assert!(!is_dark_square((0, 1)));
    assert!(!is_dark_square((1, 0)));
    assert!(is_dark_square((1, 1)));
    assert!(is_dark_square((7, 7)));
}
