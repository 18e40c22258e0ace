//! The session and its reconciliation policy: the state of one game as a
//! side of the wire sees it, how a locally applied move becomes an outbound
//! message, and what happens when a received move's declared outcome
//! disagrees with the local replay — adopt it, override it, or abort.

use vstd::prelude::*;
use crate::board::{Board, Color, Piece, PieceKind, Position};
use crate::cursor::GameStateType;
use crate::protocol::{HalfMoveRequest, Message, SpecMessage};

verus! {

/// The state of the game a session holds: still running with a side to
/// move, finished with a final position, or aborted after a quit or a
/// protocol violation.
#[derive(Debug)]
pub enum SessionStatus {
    Ongoing { board: Board, turn: Color },
    Finished { board: Board, state: GameStateType },
    Aborted,
}

/// The mathematical content of a session state.
#[verifier::ext_equal]
pub enum SpecStatus {
    Ongoing { board: Seq<Option<Piece>>, turn: Color },
    Finished { board: Seq<Option<Piece>>, state: GameStateType },
    Aborted,
}

impl SessionStatus {
    /// The mathematical content of this state.
    pub open spec fn model(self) -> SpecStatus {
        match self {
            SessionStatus::Ongoing { board, turn } => SpecStatus::Ongoing { board: board@, turn },
            SessionStatus::Finished { board, state } => SpecStatus::Finished {
                board: board@,
                state,
            },
            SessionStatus::Aborted => SpecStatus::Aborted,
        }
    }

    /// Boards are whole and a finished game carries a terminal state.
    pub open spec fn wf(self) -> bool {
        self.model().wf()
    }
}

impl SpecStatus {
    /// Boards are whole and a finished game carries a terminal state.
    pub open spec fn wf(self) -> bool {
        match self {
            SpecStatus::Ongoing { board, .. } => board.len() == 64,
            SpecStatus::Finished { board, state } => board.len() == 64 && state
                != GameStateType::Normal,
            SpecStatus::Aborted => true,
        }
    }
}

/// What the rules engine said about one attempted half-move: the game goes
/// on with this board, the game ended with this board and result, or the
/// move was illegal and nothing changed.
#[derive(Debug)]
pub enum MoveOutcome {
    Ongoing { board: Board },
    Finished { board: Board, state: GameStateType },
    Illegal,
}

/// The mathematical content of a move outcome.
#[verifier::ext_equal]
pub enum SpecOutcome {
    Ongoing { board: Seq<Option<Piece>> },
    Finished { board: Seq<Option<Piece>>, state: GameStateType },
    Illegal,
}

impl MoveOutcome {
    /// The mathematical content of this outcome.
    pub open spec fn model(self) -> SpecOutcome {
        match self {
            MoveOutcome::Ongoing { board } => SpecOutcome::Ongoing { board: board@ },
            MoveOutcome::Finished { board, state } => SpecOutcome::Finished {
                board: board@,
                state,
            },
            MoveOutcome::Illegal => SpecOutcome::Illegal,
        }
    }

    /// Boards are whole and a finished outcome carries a terminal state.
    pub open spec fn wf(self) -> bool {
        self.model().wf()
    }
}

impl SpecOutcome {
    /// Boards are whole and a finished outcome carries a terminal state.
    pub open spec fn wf(self) -> bool {
        match self {
            SpecOutcome::Ongoing { board } => board.len() == 64,
            SpecOutcome::Finished { board, state } => board.len() == 64 && state
                != GameStateType::Normal,
            SpecOutcome::Illegal => true,
        }
    }
}

/// The game-state tag an outcome is reported with on the wire.
pub open spec fn spec_outcome_tag(o: SpecOutcome) -> GameStateType {
    match o {
        SpecOutcome::Ongoing { .. } => GameStateType::Normal,
        SpecOutcome::Finished { state, .. } => state,
        SpecOutcome::Illegal => GameStateType::Normal,
    }
}

/// How a move outcome changes a session state: an ongoing game advances to
/// the outcome's board (the turn passing to the other side, or the game
/// finishing); an illegal move changes nothing; a game no longer ongoing
/// changes nothing.
pub open spec fn spec_apply_outcome(st: SpecStatus, o: SpecOutcome) -> SpecStatus {
    match st {
        SpecStatus::Ongoing { board, turn } => match o {
            SpecOutcome::Ongoing { board: b } => SpecStatus::Ongoing {
                board: b,
                turn: turn.spec_other(),
            },
            SpecOutcome::Finished { board: b, state } => SpecStatus::Finished { board: b, state },
            SpecOutcome::Illegal => st,
        },
        _ => st,
    }
}

/// The game-state tag a session state is reported with.
pub open spec fn spec_status_tag(st: SpecStatus) -> GameStateType {
    match st {
        SpecStatus::Ongoing { .. } => GameStateType::Normal,
        SpecStatus::Finished { state, .. } => state,
        SpecStatus::Aborted => GameStateType::Normal,
    }
}

/// The board a session state shows.
pub open spec fn spec_status_board(st: SpecStatus) -> Seq<Option<Piece>>
    recommends
        !(st is Aborted),
{
    match st {
        SpecStatus::Ongoing { board, .. } => board,
        SpecStatus::Finished { board, .. } => board,
        SpecStatus::Aborted => Seq::empty(),
    }
}

/// The message a networked session sends after applying a local move: the
/// mover's color, the move itself, the resulting tag, and a snapshot of the
/// board after the move. No message leaves for an illegal move, a finished
/// or aborted session, or a session without a connection.
pub open spec fn spec_local_move_message(
    st: SpecStatus,
    local_player: Option<Color>,
    request: HalfMoveRequest,
    o: SpecOutcome,
) -> Option<SpecMessage> {
    if st matches SpecStatus::Ongoing { .. } && !(o is Illegal) && local_player is Some {
        Some(
            SpecMessage::Move {
                player: Some(st->Ongoing_turn),
                chess_move: request,
                new_game_state: spec_outcome_tag(o),
                new_board: spec_status_board(spec_apply_outcome(st, o)),
            },
        )
    } else {
        None
    }
}

/// What the receiving side does with a move message, as a pair of the new
/// session state and the action owed: replay the move locally, compare the
/// local result against the declared one, and on a mismatch abort under the
/// strict policy or adopt the declared state under the lenient one.
/// Adopting a declared *terminal* state is unsupported and reported as
/// such, the local state standing.
pub open spec fn spec_reconcile(
    strict: bool,
    st: SpecStatus,
    declared_state: GameStateType,
    declared_board: Seq<Option<Piece>>,
    replay: SpecOutcome,
) -> (SpecStatus, SpecAction) {
    if st is Aborted {
        (st, SpecAction::Ignored)
    } else {
        let st1 = spec_apply_outcome(st, replay);
        if declared_board == spec_status_board(st1) && declared_state == spec_status_tag(st1) {
            (st1, SpecAction::Accepted)
        } else if strict {
            (SpecStatus::Aborted, SpecAction::AbortAndSend("Invalid move"@))
        } else {
            match st1 {
                SpecStatus::Ongoing { board, turn } => if declared_state
                    == GameStateType::Normal {
                    (
                        SpecStatus::Ongoing { board: declared_board, turn },
                        SpecAction::AdoptedRemote,
                    )
                } else {
                    (st1, SpecAction::UnsupportedReconstruction)
                },
                _ => (st1, SpecAction::Accepted),
            }
        }
    }
}

/// What a session does in answer to a received message.
#[derive(Debug)]
pub enum ReconcileAction {
    /// The locally derived state stands and the session goes on.
    Accepted,
    /// Lenient policy: the declared state was adopted over the local replay.
    AdoptedRemote,
    /// Strict policy: the declared outcome disagreed with the local replay;
    /// the session is aborted and this quit message is owed to the peer.
    AbortAndSend(Message),
    /// Lenient policy: the declared outcome disagreed and declared the game
    /// over, which cannot be adopted; the local state stands and the
    /// condition must be surfaced as a fatal error.
    UnsupportedReconstruction,
    /// The peer quit; the session is over.
    PeerQuit,
    /// The session had already ended; the message changed nothing.
    Ignored,
}

/// The mathematical content of a reconcile action.
#[verifier::ext_equal]
pub enum SpecAction {
    Accepted,
    AdoptedRemote,
    AbortAndSend(Seq<char>),
    UnsupportedReconstruction,
    PeerQuit,
    Ignored,
}

impl ReconcileAction {
    /// The mathematical content of this action.
    pub open spec fn model(self) -> SpecAction {
        match self {
            ReconcileAction::Accepted => SpecAction::Accepted,
            ReconcileAction::AdoptedRemote => SpecAction::AdoptedRemote,
            ReconcileAction::AbortAndSend(m) => SpecAction::AbortAndSend(
                m.model()->Quit_payload,
            ),
            ReconcileAction::UnsupportedReconstruction => SpecAction::UnsupportedReconstruction,
            ReconcileAction::PeerQuit => SpecAction::PeerQuit,
            ReconcileAction::Ignored => SpecAction::Ignored,
        }
    }
}

/// One side of a game: which player this process speaks for (none for a
/// local two-player game), the policy on disagreeing peers, and the state
/// of the game.
#[derive(Debug)]
pub struct Session {
    local_player: Option<Color>,
    strict_rule_policy: bool,
    status: SessionStatus,
}

impl Session {
    /// Which player this process speaks for.
    pub closed spec fn spec_local_player(self) -> Option<Color> {
        self.local_player
    }

    /// Whether a disagreeing peer aborts the session.
    pub closed spec fn spec_strict(self) -> bool {
        self.strict_rule_policy
    }

    /// The state of the game.
    pub closed spec fn spec_status(self) -> SessionStatus {
        self.status
    }

    /// The mathematical content of the game state.
    pub open spec fn status_model(self) -> SpecStatus {
        self.spec_status().model()
    }

    /// The session's game state is well formed.
    pub open spec fn wf(self) -> bool {
        self.status_model().wf()
    }

    /// A session over a fresh game from the given position with the given
    /// side to move.
    pub fn new(
        local_player: Option<Color>,
        strict_rule_policy: bool,
        board: Board,
        turn: Color,
    ) -> (r: Session)
        requires
            board.wf(),
        ensures
            r.wf(),
            r.spec_local_player() == local_player,
            r.spec_strict() == strict_rule_policy,
            r.status_model() == (SpecStatus::Ongoing { board: board@, turn }),
    {
        Session { local_player, strict_rule_policy, status: SessionStatus::Ongoing { board, turn } }
    }

    /// Which player this process speaks for, or none for a local game.
    pub fn local_player(&self) -> (r: Option<Color>)
        ensures
            r == self.spec_local_player(),
    {
        self.local_player
    }

    /// Whether a disagreeing peer aborts the session.
    pub fn strict_rule_policy(&self) -> (r: bool)
        ensures
            r == self.spec_strict(),
    {
        self.strict_rule_policy
    }

    /// The state of the game.
    pub fn status(&self) -> (r: &SessionStatus)
        ensures
            r == self.spec_status(),
    {
        &self.status
    }

    /// Whether the game is running and it is this process's turn: always
    /// its turn in a local game, else exactly when the side to move is the
    /// local player.
    pub fn is_local_player_turn(&self) -> (r: bool)
        ensures
            r == (self.status_model() matches SpecStatus::Ongoing { turn, .. } && (
            self.spec_local_player() is None || self.spec_local_player() == Some(turn))),
    {
        match &self.status {
            SessionStatus::Ongoing { board: _, turn } => match self.local_player {
                None => true,
                Some(p) => p == *turn,
            },
            _ => false,
        }
    }

    /// The game-state tag the current state is reported with.
    pub fn game_state_type(&self) -> (r: GameStateType)
        requires
            !(self.status_model() is Aborted),
        ensures
            r == spec_status_tag(self.status_model()),
    {
        match &self.status {
            SessionStatus::Ongoing { .. } => GameStateType::Normal,
            SessionStatus::Finished { board: _, state } => *state,
            SessionStatus::Aborted => GameStateType::Normal,
        }
    }

    /// Applies the outcome the rules engine gave for a local move request:
    /// the game state advances (an illegal move changes nothing), and for a
    /// successful move in a networked session the move message owed to the
    /// peer is returned.
    pub fn apply_local_move(&mut self, request: HalfMoveRequest, outcome: MoveOutcome) -> (r:
        Option<Message>)
        requires
            old(self).wf(),
            outcome.wf(),
            request.wf(),
        ensures
            final(self).wf(),
            final(self).spec_local_player() == old(self).spec_local_player(),
            final(self).spec_strict() == old(self).spec_strict(),
            final(self).status_model() == spec_apply_outcome(
                old(self).status_model(),
                outcome.model(),
            ),
            match r {
                Some(msg) => msg.wf() && spec_local_move_message(
                    old(self).status_model(),
                    old(self).spec_local_player(),
                    request,
                    outcome.model(),
                ) == Some(msg.model()),
                None => spec_local_move_message(
                    old(self).status_model(),
                    old(self).spec_local_player(),
                    request,
                    outcome.model(),
                ) is None,
            },
    {
        match &self.status {
            SessionStatus::Ongoing { board: _, turn } => {
                let player: Color = *turn;
                match outcome {
                    MoveOutcome::Ongoing { board } => {
                        let snapshot = board.clone_board();
                        self.status = SessionStatus::Ongoing { board, turn: player.other() };
                        if self.local_player.is_some() {
                            Some(
                                Message::ChessMove {
                                    player: Some(player),
                                    chess_move: request,
                                    new_game_state: GameStateType::Normal,
                                    new_board: snapshot,
                                },
                            )
                        } else {
                            None
                        }
                    },
                    MoveOutcome::Finished { board, state } => {
                        let snapshot = board.clone_board();
                        self.status = SessionStatus::Finished { board, state };
                        if self.local_player.is_some() {
                            Some(
                                Message::ChessMove {
                                    player: Some(player),
                                    chess_move: request,
                                    new_game_state: state,
                                    new_board: snapshot,
                                },
                            )
                        } else {
                            None
                        }
                    },
                    MoveOutcome::Illegal => None,
                }
            },
            _ => None,
        }
    }

    /// Handles one received message. A quit message ends the session. A
    /// move message is reconciled against `replay`, the rules engine's
    /// outcome for the same move on the local state, as
    /// [`spec_reconcile`] lays down.
    pub fn handle_message(&mut self, message: &Message, replay: MoveOutcome) -> (r:
        ReconcileAction)
        requires
            old(self).wf(),
            replay.wf(),
            message.wf(),
        ensures
            final(self).wf(),
            final(self).spec_local_player() == old(self).spec_local_player(),
            final(self).spec_strict() == old(self).spec_strict(),
            match *message {
                Message::ChessMove { new_game_state, new_board, .. } => {
                    let (st2, act) = spec_reconcile(
                        old(self).spec_strict(),
                        old(self).status_model(),
                        new_game_state,
                        new_board@,
                        replay.model(),
                    );
                    final(self).status_model() == st2 && r.model() == act && (
                    r matches ReconcileAction::AbortAndSend(m) ==> m.wf())
                },
                Message::ChessQuit { .. } => final(self).status_model() is Aborted && r
                    is PeerQuit,
            },
    {
        match message {
            Message::ChessMove { player: _, chess_move: _, new_game_state, new_board } => {
                if let SessionStatus::Aborted = &self.status {
                    return ReconcileAction::Ignored;
                }
                self.replay_remote_move(replay);
                let matches_declared: bool = match &self.status {
                    SessionStatus::Ongoing { board, .. } => *new_board == *board
                        && *new_game_state == GameStateType::Normal,
                    SessionStatus::Finished { board, state } => *new_board == *board
                        && *new_game_state == *state,
                    SessionStatus::Aborted => false,
                };
                if matches_declared {
                    ReconcileAction::Accepted
                } else if self.strict_rule_policy {
                    self.status = SessionStatus::Aborted;
                    let reason = invalid_move_reason();
                    let quit = Message::ChessQuit { payload: reason };
                    proof {
                        reveal_strlit("Invalid move");
                        assert(quit.model()->Quit_payload.len() == 12);
                        assert forall|i: int| 0 <= i < quit.model()->Quit_payload.len() implies
                            crate::protocol::spec_char_ok(
                                #[trigger] quit.model()->Quit_payload[i],
                            ) by {
                            let c = quit.model()->Quit_payload[i];
                            assert(c == 'I' || c == 'n' || c == 'v' || c == 'a' || c == 'l' || c
                                == 'i' || c == 'd' || c == ' ' || c == 'm' || c == 'o' || c == 'e');
                        }
                        assert(quit.wf());
                    }
                    ReconcileAction::AbortAndSend(quit)
                } else {
                    match &self.status {
                        SessionStatus::Ongoing { board: _, turn } => {
                            if let GameStateType::Normal = new_game_state {
                                let turn: Color = *turn;
                                self.status = SessionStatus::Ongoing {
                                    board: new_board.clone_board(),
                                    turn,
                                };
                                ReconcileAction::AdoptedRemote
                            } else {
                                ReconcileAction::UnsupportedReconstruction
                            }
                        },
                        _ => ReconcileAction::Accepted,
                    }
                }
            },
            Message::ChessQuit { .. } => {
                self.status = SessionStatus::Aborted;
                ReconcileAction::PeerQuit
            },
        }
    }

    /// Advances the game state by a replayed remote outcome, sending
    /// nothing.
    fn replay_remote_move(&mut self, replay: MoveOutcome)
        requires
            old(self).wf(),
            replay.wf(),
        ensures
            final(self).wf(),
            final(self).spec_local_player() == old(self).spec_local_player(),
            final(self).spec_strict() == old(self).spec_strict(),
            final(self).status_model() == spec_apply_outcome(
                old(self).status_model(),
                replay.model(),
            ),
    {
        match &self.status {
            SessionStatus::Ongoing { board: _, turn } => {
                let player: Color = *turn;
                match replay {
                    MoveOutcome::Ongoing { board } => {
                        self.status = SessionStatus::Ongoing { board, turn: player.other() };
                    },
                    MoveOutcome::Finished { board, state } => {
                        self.status = SessionStatus::Finished { board, state };
                    },
                    MoveOutcome::Illegal => {},
                }
            },
            _ => {},
        }
    }
}

/// Match case: when both sides start from the same ongoing state and the
/// rules engine gives the same outcome for the same legal move on each, the
/// receiver's reconciliation of the sender's message accepts it, both sides
/// end in the same state, and a game that goes on stays ongoing.
pub proof fn lemma_reconcile_match(
    strict: bool,
    st: SpecStatus,
    req: HalfMoveRequest,
    o: SpecOutcome,
    lp: Option<Color>,
)
    requires
        st is Ongoing,
        !(o is Illegal),
        lp is Some,
    ensures
        spec_local_move_message(st, lp, req, o) matches Some(m) && (m matches SpecMessage::Move {
            new_game_state,
            new_board,
            ..
        } && spec_reconcile(strict, st, new_game_state, new_board, o) == (
            spec_apply_outcome(st, o),
            SpecAction::Accepted,
        )),
        o is Ongoing ==> spec_apply_outcome(st, o) is Ongoing,
{
}

/// Strict mismatch: when the declared board or game state disagrees with
/// the local replay, a strict session aborts and owes the peer a quit
/// message naming the invalid move.
pub proof fn lemma_reconcile_strict_mismatch(
    st: SpecStatus,
    declared_state: GameStateType,
    declared_board: Seq<Option<Piece>>,
    replay: SpecOutcome,
)
    requires
        !(st is Aborted),
        !(declared_board == spec_status_board(spec_apply_outcome(st, replay)) && declared_state
            == spec_status_tag(spec_apply_outcome(st, replay))),
    ensures
        spec_reconcile(true, st, declared_state, declared_board, replay) == (
            SpecStatus::Aborted,
            SpecAction::AbortAndSend("Invalid move"@),
        ),
{
}

/// Lenient mismatch: when the declared ongoing outcome disagrees with the
/// local replay, a lenient session adopts the declared board, keeping the
/// side to move the replay reached, rather than aborting.
pub proof fn lemma_reconcile_lenient_mismatch(
    st: SpecStatus,
    declared_board: Seq<Option<Piece>>,
    replay: SpecOutcome,
)
    requires
        !(st is Aborted),
        spec_apply_outcome(st, replay) is Ongoing,
        !(declared_board == spec_status_board(spec_apply_outcome(st, replay))),
    ensures
        spec_reconcile(false, st, GameStateType::Normal, declared_board, replay) == (
            SpecStatus::Ongoing {
                board: declared_board,
                turn: spec_apply_outcome(st, replay)->Ongoing_turn,
            },
            SpecAction::AdoptedRemote,
        ),
{
}

/// The four squares of the promotion selection menu: queen, knight, rook
/// and bishop, drawn in the promotion square's column from the promoting
/// side's far rank inward.
pub open spec fn spec_promotion_selection(to_play: Color, square: Position) -> Seq<
    (Position, PieceKind),
> {
    let col = square.col;
    let ranks: Seq<u8> = if to_play is White {
        seq![7u8, 6u8, 5u8, 4u8]
    } else {
        seq![0u8, 1u8, 2u8, 3u8]
    };
    seq![
        (Position { col, row: ranks[0] }, PieceKind::Queen),
        (Position { col, row: ranks[1] }, PieceKind::Knight),
        (Position { col, row: ranks[2] }, PieceKind::Rook),
        (Position { col, row: ranks[3] }, PieceKind::Bishop),
    ]
}

/// The squares of the promotion selection menu for `square`, each with the
/// piece kind it offers.
pub fn promotion_selection_iter(to_play: Color, square: Position) -> (r: Vec<(Position, PieceKind)>)
    requires
        square.wf(),
    ensures
        r@ == spec_promotion_selection(to_play, square),
{
    let ranks: [u8; 4] = match to_play {
        Color::White => [7, 6, 5, 4],
        Color::Black => [0, 1, 2, 3],
    };
    let mut v: Vec<(Position, PieceKind)> = Vec::new();
    v.push((Position { col: square.col, row: ranks[0] }, PieceKind::Queen));
    v.push((Position { col: square.col, row: ranks[1] }, PieceKind::Knight));
    v.push((Position { col: square.col, row: ranks[2] }, PieceKind::Rook));
    v.push((Position { col: square.col, row: ranks[3] }, PieceKind::Bishop));
    proof {
        assert(v@ =~= spec_promotion_selection(to_play, square));
    }
    v
}

/// The piece kind `square` offers in the promotion selection menu for
/// `promotion_square`, if it is part of that menu.
pub fn promotion_selection_type(turn: Color, promotion_square: Position, square: Position) -> (r:
    Option<PieceKind>)
    requires
        promotion_square.wf(),
    ensures
        ({
            let menu = spec_promotion_selection(turn, promotion_square);
            match r {
                Some(kind) => exists|i: int|
                    0 <= i < 4 && menu[i].0 == square && #[trigger] menu[i].1 == kind && forall|
                        j: int,
                    | 0 <= j < i ==> menu[j].0 != square,
                None => forall|i: int| 0 <= i < 4 ==> (#[trigger] menu[i]).0 != square,
            }
        }),
{
    let menu = promotion_selection_iter(turn, promotion_square);
    let mut i: usize = 0;
    while i < 4
        invariant
            i <= 4,
            menu@ == spec_promotion_selection(turn, promotion_square),
            menu@.len() == 4,
            forall|j: int| 0 <= j < i ==> (#[trigger] menu@[j]).0 != square,
        decreases 4 - i,
    {
        let (pos, kind) = menu[i];
        if pos == square {
            return Some(kind);
        }
        i += 1;
    }
    None
}

/// The reason sent with the quit message of a strict-policy abort.
fn invalid_move_reason() -> (r: String)
    ensures
        r@ == "Invalid move"@,
{
    let reason: &str = "Invalid move";
    reason.to_owned()
}

} // verus!
