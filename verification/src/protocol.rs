//! The message protocol: the closed set of wire messages, their fixed-size
//! byte layout, and the pure encode/decode pair.
//!
//! Every message is exactly [`BUFFER_SIZE`] bytes. A move message is laid
//! out as `M`, a player byte (`W`/`B`/`0`), then the move: `S` with a
//! two-byte source and two-byte destination square and a `0` promotion byte,
//! or `P` with a file byte and a promotion-piece byte; then the three-byte
//! game-state tag, `:`, the board encoding, `:`, and zero padding. A quit
//! message is `Q`, the reason bytes, and zero padding.

use vstd::prelude::*;
use vstd::string::StringSliceAdditionalSpecFns;
use crate::board::{Board, Color, Piece, PieceKind, Position};
use crate::cursor::{
    GameStateType, MessageBuilder, MessageReader, spec_find, spec_pos_bytes, spec_pos_bytes_valid,
    spec_pos_from_bytes, spec_promo_byte, spec_promo_from_byte, spec_state_from_tag,
    spec_state_tag,
};
use crate::fen::{spec_board_fen, spec_board_from_fen, lemma_board_fen_props};

verus! {

/// The fixed size of every wire message, in bytes.
pub const BUFFER_SIZE: usize = 128;

/// One player's move: either a piece moved from one square to another, or
/// the choice of piece for a pawn waiting to promote in some column.
#[derive(Clone, Copy, Debug, PartialEq, Eq, Structural)]
pub enum HalfMoveRequest {
    Standard { source: Position, dest: Position },
    Promotion { column: u8, kind: PieceKind },
}

impl HalfMoveRequest {
    /// Squares lie on the board; a promotion names a column on the board
    /// and a kind a pawn may promote to.
    pub open spec fn wf(self) -> bool {
        match self {
            HalfMoveRequest::Standard { source, dest } => source.wf() && dest.wf(),
            HalfMoveRequest::Promotion { column, kind } => column < 8
                && kind.spec_is_promotable(),
        }
    }
}

/// Why a message could not be encoded.
#[derive(Clone, Copy, Debug, PartialEq, Eq, Structural)]
pub enum EncodeError {
    /// The message does not fit in [`BUFFER_SIZE`] bytes.
    Capacity,
    /// The quit reason holds a character the wire cannot carry.
    InvalidPayload,
}

/// Why a buffer could not be decoded.
#[derive(Clone, Copy, Debug, PartialEq, Eq, Structural)]
pub enum DecodeError {
    /// The embedded board text is malformed.
    Codec,
    /// The buffer has the wrong size, an unknown tag, or a malformed field.
    Format,
}

/// A wire message: a move notification carrying the mover, the move, the
/// resulting game state and a full board snapshot; or a quit notification
/// carrying a human-readable reason.
#[derive(Debug)]
pub enum Message {
    ChessMove {
        player: Option<Color>,
        chess_move: HalfMoveRequest,
        new_game_state: GameStateType,
        new_board: Board,
    },
    ChessQuit { payload: String },
}

/// The mathematical content of a message: as [`Message`], with the board
/// and the reason replaced by their views.
#[verifier::ext_equal]
pub enum SpecMessage {
    Move {
        player: Option<Color>,
        chess_move: HalfMoveRequest,
        new_game_state: GameStateType,
        new_board: Seq<Option<Piece>>,
    },
    Quit { payload: Seq<char> },
}

/// Whether a character can ride the wire: ASCII and not the padding value
/// zero.
pub open spec fn spec_char_ok(c: char) -> bool {
    0 < (c as int) && (c as int) < 128
}

/// Whether every reason character can ride the wire.
pub open spec fn spec_payload_chars_ok(s: Seq<char>) -> bool {
    forall|i: int| 0 <= i < s.len() ==> spec_char_ok(#[trigger] s[i])
}

impl SpecMessage {
    /// What the encoding carries exactly: a move's parts are valid, a
    /// quit's reason rides the wire and leaves room for the tag and one
    /// padding byte.
    pub open spec fn wf(self) -> bool {
        match self {
            SpecMessage::Move { chess_move, new_board, .. } => chess_move.wf() && new_board.len()
                == 64,
            SpecMessage::Quit { payload } => spec_payload_chars_ok(payload) && payload.len()
                <= BUFFER_SIZE - 2,
        }
    }
}

impl Message {
    /// The mathematical content of this message.
    pub open spec fn model(self) -> SpecMessage {
        match self {
            Message::ChessMove { player, chess_move, new_game_state, new_board } =>
                SpecMessage::Move {
                player,
                chess_move,
                new_game_state,
                new_board: new_board@,
            },
            Message::ChessQuit { payload } => SpecMessage::Quit { payload: payload@ },
        }
    }

    /// Whether this message is representable on the wire.
    pub open spec fn wf(self) -> bool {
        self.model().wf()
    }
}

impl PartialEq for Message {
    /// Two messages are equal when their contents are: same variant, same
    /// fields, boards square for square and reasons character for
    /// character.
    fn eq(&self, other: &Message) -> (r: bool) {
        match (self, other) {
            (
                Message::ChessMove { player, chess_move, new_game_state, new_board },
                Message::ChessMove {
                    player: player2,
                    chess_move: chess_move2,
                    new_game_state: new_game_state2,
                    new_board: new_board2,
                },
            ) => {
                let players_eq: bool = match (player, player2) {
                    (None, None) => true,
                    (Some(a), Some(b)) => a == b,
                    _ => false,
                };
                let result: bool = players_eq && chess_move == chess_move2 && new_game_state
                    == new_game_state2 && new_board == new_board2;
                proof {
                    if result {
                        assert(self.model() =~= other.model());
                    }
                }
                result
            },
            (Message::ChessQuit { payload }, Message::ChessQuit { payload: payload2 }) => {
                let result: bool = *payload == *payload2;
                proof {
                    if result {
                        assert(self.model() =~= other.model());
                    }
                }
                result
            },
            _ => false,
        }
    }
}

impl vstd::std_specs::cmp::PartialEqSpecImpl for Message {
    open spec fn obeys_eq_spec() -> bool {
        true
    }

    open spec fn eq_spec(&self, other: &Message) -> bool {
        self.model() == other.model()
    }
}

/// The byte that stands for the reporting player: `W`, `B`, or `0` for
/// none.
pub open spec fn spec_player_byte(p: Option<Color>) -> u8 {
    match p {
        Some(Color::White) => 'W' as u8,
        Some(Color::Black) => 'B' as u8,
        None => '0' as u8,
    }
}

/// The player an initial byte stands for, if any.
pub open spec fn spec_player_from_byte(b: u8) -> Option<Option<Color>> {
    if b == 'W' as u8 {
        Some(Some(Color::White))
    } else if b == 'B' as u8 {
        Some(Some(Color::Black))
    } else if b == '0' as u8 {
        Some(None)
    } else {
        None
    }
}

/// The byte encoding of a move: `S`, the source and destination squares and
/// a `0` promotion byte; or `P`, the column's file byte, and the promotion
/// piece.
pub open spec fn spec_move_bytes(mv: HalfMoveRequest) -> Seq<u8> {
    match mv {
        HalfMoveRequest::Standard { source, dest } => seq!['S' as u8] + spec_pos_bytes(source)
            + spec_pos_bytes(dest) + seq![spec_promo_byte(None)],
        HalfMoveRequest::Promotion { column, kind } => seq![
            'P' as u8,
            ('A' as u8 + column) as u8,
            spec_promo_byte(Some(kind)),
        ],
    }
}

/// The bytes of a reason string: one byte per ASCII character.
pub open spec fn spec_payload_bytes(s: Seq<char>) -> Seq<u8> {
    Seq::new(s.len(), |i: int| s[i] as u8)
}

/// The characters a reason's bytes stand for.
pub open spec fn spec_chars_of_bytes(b: Seq<u8>) -> Seq<char> {
    Seq::new(b.len(), |i: int| b[i] as char)
}

/// A run of zero padding bytes.
pub open spec fn spec_zeros(n: int) -> Seq<u8> {
    Seq::new(n as nat, |i: int| 0u8)
}

/// The bytes of a message before padding.
pub open spec fn spec_message_head(m: SpecMessage) -> Seq<u8> {
    match m {
        SpecMessage::Move { player, chess_move, new_game_state, new_board } => seq![
            'M' as u8,
            spec_player_byte(player),
        ] + spec_move_bytes(chess_move) + spec_state_tag(new_game_state) + seq![':' as u8]
            + spec_board_fen(new_board) + seq![':' as u8],
        SpecMessage::Quit { payload } => seq!['Q' as u8] + spec_payload_bytes(payload),
    }
}

/// The full fixed-size encoding of a message: its head, zero padded to
/// [`BUFFER_SIZE`] bytes.
pub open spec fn spec_message_bytes(m: SpecMessage) -> Seq<u8> {
    spec_message_head(m) + spec_zeros(BUFFER_SIZE - spec_message_head(m).len())
}

/// What decoding the part of a move message after the move field yields:
/// the three-byte state tag, `:`, the board text up to the next `:`, and
/// zero padding to the end.
pub open spec fn spec_decode_tail(
    u: Seq<u8>,
    player: Option<Color>,
    mv: HalfMoveRequest,
) -> Result<SpecMessage, DecodeError> {
    if u.len() < 4 {
        Err(DecodeError::Format)
    } else {
        match spec_state_from_tag(u.take(3)) {
            None => Err(DecodeError::Format),
            Some(state) => if u[3] != ':' as u8 {
                Err(DecodeError::Format)
            } else {
                let v = u.skip(4);
                match spec_find(v, ':' as u8) {
                    None => Err(DecodeError::Format),
                    Some(i) => match spec_board_from_fen(v.take(i)) {
                        None => Err(DecodeError::Codec),
                        Some(squares) => {
                            let w = v.skip(i + 1);
                            if forall|j: int| 0 <= j < w.len() ==> w[j] == 0 {
                                Ok(
                                    SpecMessage::Move {
                                        player,
                                        chess_move: mv,
                                        new_game_state: state,
                                        new_board: squares,
                                    },
                                )
                            } else {
                                Err(DecodeError::Format)
                            }
                        },
                    },
                }
            },
        }
    }
}

/// What decoding the bytes of a move message after its `M` tag yields.
pub open spec fn spec_decode_move(t: Seq<u8>) -> Result<SpecMessage, DecodeError> {
    if t.len() < 7 {
        Err(DecodeError::Format)
    } else {
        match spec_player_from_byte(t[0]) {
            None => Err(DecodeError::Format),
            Some(player) => if t[1] == 'S' as u8 {
                if !spec_pos_bytes_valid(t[2], t[3]) {
                    Err(DecodeError::Format)
                } else if !spec_pos_bytes_valid(t[4], t[5]) {
                    Err(DecodeError::Format)
                } else {
                    match spec_promo_from_byte(t[6]) {
                        Some(None) => spec_decode_tail(
                            t.skip(7),
                            player,
                            HalfMoveRequest::Standard {
                                source: spec_pos_from_bytes(t[2], t[3]),
                                dest: spec_pos_from_bytes(t[4], t[5]),
                            },
                        ),
                        _ => Err(DecodeError::Format),
                    }
                }
            } else if t[1] == 'P' as u8 {
                if !('A' as u8 <= t[2] && t[2] <= 'H' as u8) {
                    Err(DecodeError::Format)
                } else {
                    match spec_promo_from_byte(t[3]) {
                        Some(Some(kind)) => if kind.spec_is_promotable() {
                            spec_decode_tail(
                                t.skip(4),
                                player,
                                HalfMoveRequest::Promotion {
                                    column: (t[2] - 'A' as u8) as u8,
                                    kind,
                                },
                            )
                        } else {
                            Err(DecodeError::Format)
                        },
                        _ => Err(DecodeError::Format),
                    }
                }
            } else {
                Err(DecodeError::Format)
            },
        }
    }
}

/// What decoding the bytes of a quit message after its `Q` tag yields: the
/// reason runs to the first zero byte, must be ASCII, and only padding may
/// follow.
pub open spec fn spec_decode_quit(t: Seq<u8>) -> Result<SpecMessage, DecodeError> {
    match spec_find(t, 0u8) {
        None => Err(DecodeError::Format),
        Some(i) => if exists|j: int| i <= j < t.len() && t[j] != 0 {
            Err(DecodeError::Format)
        } else if exists|j: int| 0 <= j < i && t[j] >= 128 {
            Err(DecodeError::Format)
        } else {
            Ok(SpecMessage::Quit { payload: spec_chars_of_bytes(t.take(i)) })
        },
    }
}

/// What decoding a byte buffer yields: a message exactly when the buffer
/// is [`BUFFER_SIZE`] bytes laying out one of the two message forms, and
/// otherwise which error.
pub open spec fn spec_decode(s: Seq<u8>) -> Result<SpecMessage, DecodeError> {
    if s.len() != BUFFER_SIZE {
        Err(DecodeError::Format)
    } else if s[0] == 'M' as u8 {
        spec_decode_move(s.skip(1))
    } else if s[0] == 'Q' as u8 {
        spec_decode_quit(s.skip(1))
    } else {
        Err(DecodeError::Format)
    }
}

/// Relies on `String::from_utf8`: a sequence of ASCII bytes is valid UTF-8
/// and decodes to the characters with the same code points.
#[verifier::external_body]
fn string_from_ascii_bytes(bytes: Vec<u8>) -> (r: String)
    requires
        forall|i: int| 0 <= i < bytes@.len() ==> bytes@[i] < 128,
    ensures
        r@ == spec_chars_of_bytes(bytes@),
{
    String::from_utf8(bytes).unwrap_or_default()
}

/// Where each field of a move message's head lies, byte by byte.
proof fn lemma_move_head_facts(m: SpecMessage)
    requires
        m is Move,
    ensures
        ({
            let h = spec_message_head(m);
            let mb = spec_move_bytes(m->chess_move);
            let tag = spec_state_tag(m->new_game_state);
            let fen = spec_board_fen(m->Move_new_board);
            let mblen = mb.len() as int;
            let fenlen = fen.len() as int;
            &&& h.len() == 7 + mblen + fenlen
            &&& h[0] == 'M' as u8
            &&& h[1] == spec_player_byte(m->Move_player)
            &&& forall|j: int| 0 <= j < mblen ==> h[2 + j] == mb[j]
            &&& forall|j: int| 0 <= j < 3 ==> h[2 + mblen + j] == tag[j]
            &&& h[5 + mblen] == ':' as u8
            &&& forall|j: int| 0 <= j < fenlen ==> h[6 + mblen + j] == fen[j]
            &&& h[6 + mblen + fenlen] == ':' as u8
        }),
{
    let h = spec_message_head(m);
    let mb = spec_move_bytes(m->chess_move);
    let tag = spec_state_tag(m->new_game_state);
    let fen = spec_board_fen(m->Move_new_board);
    assert(tag.len() == 3);
    assert(h =~= seq!['M' as u8, spec_player_byte(m->Move_player)] + mb + tag + seq![':' as u8]
        + fen + seq![':' as u8]);
}

/// Where a quit message's head bytes lie.
proof fn lemma_quit_head_facts(m: SpecMessage)
    requires
        m is Quit,
    ensures
        ({
            let h = spec_message_head(m);
            let pb = spec_payload_bytes(m->payload);
            let pblen = pb.len() as int;
            &&& h.len() == 1 + pblen
            &&& h[0] == 'Q' as u8
            &&& forall|j: int| 0 <= j < pblen ==> h[1 + j] == pb[j]
        }),
{
}

/// Every representable message encodes to exactly [`BUFFER_SIZE`] bytes.
pub proof fn lemma_message_fixed_size(m: SpecMessage)
    requires
        m.wf(),
    ensures
        spec_message_bytes(m).len() == BUFFER_SIZE,
{
    match m {
        SpecMessage::Move { new_board, .. } => {
            lemma_move_head_facts(m);
            lemma_board_fen_props(new_board);
        },
        SpecMessage::Quit { .. } => {
            lemma_quit_head_facts(m);
        },
    }
}

/// Round trip: decoding the encoding of any representable message gives
/// the message back.
pub proof fn lemma_message_round_trip(m: SpecMessage)
    requires
        m.wf(),
    ensures
        spec_decode(spec_message_bytes(m)) == Ok::<SpecMessage, DecodeError>(m),
{
    let h = spec_message_head(m);
    let full = spec_message_bytes(m);
    lemma_message_fixed_size(m);
    match m {
        SpecMessage::Move { player, chess_move, new_game_state, new_board } => {
            lemma_move_head_facts(m);
            lemma_board_fen_props(new_board);
            let mb = spec_move_bytes(chess_move);
            let mblen = mb.len() as int;
            let fen = spec_board_fen(new_board);
            let flen = fen.len() as int;
            let t = full.skip(1);
            assert(full[0] == 'M' as u8);
            assert(forall|i: int| 0 <= i < 127 ==> t[i] == full[i + 1]);
            assert(forall|i: int| 0 <= i < h.len() ==> full[i] == h[i]);
            assert(forall|i: int| h.len() <= i < 128 ==> full[i] == 0u8);
            assert(t[0] == spec_player_byte(player));
            assert(spec_player_from_byte(spec_player_byte(player)) == Some(player));
            let off: int = match chess_move {
                HalfMoveRequest::Standard { source, dest } => {
                    assert(mb =~= seq![
                        'S' as u8,
                        ('A' as u8 + source.col) as u8,
                        ('1' as u8 + source.row) as u8,
                        ('A' as u8 + dest.col) as u8,
                        ('1' as u8 + dest.row) as u8,
                        spec_promo_byte(None),
                    ]);
                    assert(t[1] == mb[0] && t[2] == mb[1] && t[3] == mb[2] && t[4] == mb[3] && t[5]
                        == mb[4] && t[6] == mb[5]);
                    assert(spec_pos_bytes_valid(t[2], t[3]));
                    assert(spec_pos_bytes_valid(t[4], t[5]));
                    assert(spec_pos_from_bytes(t[2], t[3]) == source);
                    assert(spec_pos_from_bytes(t[4], t[5]) == dest);
                    assert(spec_promo_from_byte(t[6]) == Some(None::<PieceKind>));
                    7
                },
                HalfMoveRequest::Promotion { column, kind } => {
                    assert(mb =~= seq![
                        'P' as u8,
                        ('A' as u8 + column) as u8,
                        spec_promo_byte(Some(kind)),
                    ]);
                    assert(t[1] == mb[0] && t[2] == mb[1] && t[3] == mb[2]);
                    assert('A' as u8 <= t[2] && t[2] <= 'H' as u8);
                    crate::cursor::lemma_promo_byte_round_trip(Some(kind));
                    assert(spec_promo_from_byte(t[3]) == Some(Some(kind)));
                    assert((t[2] - 'A' as u8) as u8 == column);
                    4
                },
            };
            let u = t.skip(off);
            assert(forall|i: int| 0 <= i < u.len() ==> u[i] == full[i + 1 + off]);
            let tag = spec_state_tag(new_game_state);
            assert(tag.len() == 3);
            assert(u.take(3) =~= tag);
            crate::cursor::lemma_state_tag_round_trip(new_game_state);
            assert(u[3] == ':' as u8);
            let v = u.skip(4);
            assert(forall|i: int| 0 <= i < v.len() ==> v[i] == full[i + 5 + off]);
            assert(forall|i: int| 0 <= i < flen ==> v[i] == fen[i]);
            assert(v[flen] == ':' as u8);
            crate::cursor::lemma_find_from_prefix(v, ':' as u8, flen);
            assert(v.take(flen) =~= fen);
            crate::fen::lemma_board_fen_round_trip(new_board);
            assert(spec_board_from_fen(v.take(flen)) == Some(new_board));
            let w = v.skip(flen + 1);
            assert(forall|j: int| 0 <= j < w.len() ==> w[j] == full[j + 6 + off + flen]);
            assert(forall|j: int| 0 <= j < w.len() ==> w[j] == 0);
            assert(spec_decode_tail(u, player, chess_move) == Ok::<SpecMessage, DecodeError>(m));
        },
        SpecMessage::Quit { payload } => {
            lemma_quit_head_facts(m);
            let pb = spec_payload_bytes(payload);
            let plen = pb.len() as int;
            let t = full.skip(1);
            assert(full[0] == 'Q' as u8);
            assert(forall|i: int| 0 <= i < 127 ==> t[i] == full[i + 1]);
            assert(forall|i: int| 0 <= i < h.len() ==> full[i] == h[i]);
            assert(forall|i: int| h.len() <= i < 128 ==> full[i] == 0u8);
            assert forall|i: int| 0 <= i < plen implies t[i] == pb[i] && t[i] != 0 && t[i]
                < 128 by {
                assert(spec_char_ok(payload[i]));
                assert(pb[i] == payload[i] as u8);
            }
            assert(t[plen] == 0);
            crate::cursor::lemma_find_from_prefix(t, 0u8, plen);
            assert(forall|j: int| plen <= j < t.len() ==> t[j] == 0);
            assert(t.take(plen) =~= pb);
            assert forall|i: int| 0 <= i < plen implies spec_chars_of_bytes(pb)[i]
                == payload[i] by {
                assert(spec_char_ok(payload[i]));
            }
            assert(spec_chars_of_bytes(t.take(plen)) =~= payload);
            assert(spec_decode_quit(t) == Ok::<SpecMessage, DecodeError>(m));
        },
    }
}

impl Message {
    /// Encodes this message as its fixed-size wire form. A move message
    /// always fits; a quit message fails with `InvalidPayload` when its
    /// reason holds a character the wire cannot carry, and with `Capacity`
    /// when the reason is too long for the buffer.
    pub fn encode(&self) -> (r: Result<Vec<u8>, EncodeError>)
        requires
            self matches Message::ChessMove { chess_move, new_board, .. } ==> chess_move.wf()
                && new_board.wf(),
        ensures
            self.wf() ==> (r matches Ok(v) && v@ == spec_message_bytes(self.model())),
            r is Err ==> !self.wf(),
            self matches Message::ChessQuit { payload } ==> (if !spec_payload_chars_ok(payload@) {
                r == Err::<Vec<u8>, EncodeError>(EncodeError::InvalidPayload)
            } else if payload@.len() > BUFFER_SIZE - 2 {
                r == Err::<Vec<u8>, EncodeError>(EncodeError::Capacity)
            } else {
                r matches Ok(v) && v@ == spec_message_bytes(self.model())
            }),
    {
        broadcast use vstd::string::is_ascii_spec_bytes;

        match self {
            Message::ChessMove { player, chess_move, new_game_state, new_board } => {
                proof {
                    lemma_board_fen_props(new_board@);
                    lemma_move_head_facts(self.model());
                }
                let mut b: MessageBuilder<BUFFER_SIZE> = match MessageBuilder::new(None) {
                    Ok(b) => b,
                    Err(()) => {
                        return Err(EncodeError::Capacity);
                    },
                };
                let pb: u8 = match player {
                    Some(Color::White) => 'W' as u8,
                    Some(Color::Black) => 'B' as u8,
                    None => '0' as u8,
                };
                let r0 = b.write('M' as u8);
                let r1 = b.write(pb);
                proof {
                    assert(r0 is Ok && r1 is Ok);
                }
                match chess_move {
                    HalfMoveRequest::Standard { source, dest } => {
                        let r2 = b.write('S' as u8);
                        let r3 = b.write_pos(*source);
                        let r4 = b.write_pos(*dest);
                        let r5 = b.write_promotion_type(None);
                        proof {
                            assert(r2 is Ok && r3 is Ok && r4 is Ok && r5 is Ok);
                            assert(spec_move_bytes(*chess_move) =~= seq![
                                'S' as u8,
                                ('A' as u8 + source.col) as u8,
                                ('1' as u8 + source.row) as u8,
                                ('A' as u8 + dest.col) as u8,
                                ('1' as u8 + dest.row) as u8,
                                spec_promo_byte(None),
                            ]);
                        }
                    },
                    HalfMoveRequest::Promotion { column, kind } => {
                        let r2 = b.write('P' as u8);
                        let r3 = b.write('A' as u8 + *column);
                        let r4 = b.write_promotion_type(Some(*kind));
                        proof {
                            assert(r2 is Ok && r3 is Ok && r4 is Ok);
                        }
                    },
                }
                let r6 = b.write_game_state(*new_game_state);
                let r7 = b.write(':' as u8);
                let r8 = b.write_board(new_board);
                let r9 = b.write(':' as u8);
                proof {
                    assert(r6 is Ok && r7 is Ok && r8 is Ok && r9 is Ok);
                }
                let v = b.build();
                proof {
                    let m = self.model();
                    let h = spec_message_head(m);
                    let full = spec_message_bytes(m);
                    assert(full.len() == BUFFER_SIZE);
                    assert forall|i: int| 0 <= i < BUFFER_SIZE implies v@[i] == full[i] by {
                        if i < h.len() {
                            assert(full[i] == h[i]);
                        } else {
                            assert(full[i] == 0u8);
                        }
                    }
                    assert(v@ =~= full);
                }
                Ok(v)
            },
            Message::ChessQuit { payload } => {
                let pstr: &str = payload.as_str();
                if !pstr.is_ascii() {
                    return Err(EncodeError::InvalidPayload);
                }
                let bytes: &[u8] = pstr.as_bytes();
                let n = bytes.len();
                let mut j: usize = 0;
                while j < n
                    invariant
                        *self == (Message::ChessQuit { payload: *payload }),
                        j <= n,
                        n == bytes@.len(),
                        bytes@ == pstr.spec_bytes(),
                        pstr@ == payload@,
                        vstd::string::is_ascii(pstr),
                        bytes@ =~= Seq::new(pstr@.len(), |i: int| pstr@.index(i) as u8),
                        forall|k: int| 0 <= k < j ==> bytes@[k] != 0,
                    decreases n - j,
                {
                    if bytes[j] == 0 {
                        proof {
                            let c = payload@[j as int];
                            assert(bytes@[j as int] == 0);
                            assert(bytes@[j as int] == c as u8);
                            assert('\u{0}' <= c && c <= '\u{7f}');
                            assert(0 <= c as int && c as int <= 127);
                            assert(c as u8 as int == c as int);
                            assert(c as int == 0);
                            assert(!spec_char_ok(c));
                        }
                        return Err(EncodeError::InvalidPayload);
                    }
                    j += 1;
                }
                proof {
                    assert forall|i: int| 0 <= i < payload@.len() implies spec_char_ok(
                        #[trigger] payload@[i],
                    ) by {
                        assert(bytes@[i] != 0);
                        assert(payload@[i] as u8 != 0);
                        assert('\u{0}' <= payload@[i] <= '\u{7f}');
                    }
                }
                if n > BUFFER_SIZE - 2 {
                    return Err(EncodeError::Capacity);
                }
                proof {
                    lemma_quit_head_facts(self.model());
                    assert(spec_payload_bytes(payload@) =~= bytes@);
                }
                let mut b: MessageBuilder<BUFFER_SIZE> = match MessageBuilder::new(None) {
                    Ok(b) => b,
                    Err(()) => {
                        return Err(EncodeError::Capacity);
                    },
                };
                let r0 = b.write('Q' as u8);
                let r1 = b.write_slice(bytes);
                proof {
                    assert(r0 is Ok && r1 is Ok);
                }
                let v = b.build();
                proof {
                    let m = self.model();
                    let h = spec_message_head(m);
                    let full = spec_message_bytes(m);
                    assert(full.len() == BUFFER_SIZE);
                    assert forall|i: int| 0 <= i < BUFFER_SIZE implies v@[i] == full[i] by {
                        if i < h.len() {
                            assert(full[i] == h[i]);
                        } else {
                            assert(full[i] == 0u8);
                        }
                    }
                    assert(v@ =~= full);
                }
                Ok(v)
            },
        }
    }

    /// Decodes a fixed-size buffer back into a message; fails with `Codec`
    /// when the embedded board text is malformed, and with `Format` on any
    /// other violation of the layout.
    #[verifier::loop_isolation(false)]
    pub fn decode(buffer: &[u8]) -> (r: Result<Message, DecodeError>)
        ensures
            match r {
                Ok(m) => spec_decode(buffer@) == Ok::<SpecMessage, DecodeError>(m.model())
                    && m.wf(),
                Err(e) => spec_decode(buffer@) == Err::<SpecMessage, DecodeError>(e),
            },
    {
        let ghost s = buffer@;
        if buffer.len() != BUFFER_SIZE {
            return Err(DecodeError::Format);
        }
        let mut reader = MessageReader::new(buffer);
        let tag: u8 = match reader.read() {
            Ok(b) => b,
            Err(()) => {
                return Err(DecodeError::Format);
            },
        };
        if tag == 'M' as u8 {
            let ghost t = s.skip(1);
            let player_byte: u8 = match reader.read() {
                Ok(b) => b,
                Err(()) => {
                    return Err(DecodeError::Format);
                },
            };
            proof {
                assert(player_byte == t[0]);
                assert(reader@ =~= t.skip(1));
            }
            let player: Option<Color> = if player_byte == 'W' as u8 {
                Some(Color::White)
            } else if player_byte == 'B' as u8 {
                Some(Color::Black)
            } else if player_byte == '0' as u8 {
                None
            } else {
                return Err(DecodeError::Format);
            };
            let kind_byte: u8 = match reader.read() {
                Ok(b) => b,
                Err(()) => {
                    return Err(DecodeError::Format);
                },
            };
            proof {
                assert(kind_byte == t[1]);
                assert(reader@ =~= t.skip(2));
            }
            let mv: HalfMoveRequest = if kind_byte == 'S' as u8 {
                let source: Position = match reader.read_pos() {
                    Ok(p) => p,
                    Err(()) => {
                        proof {
                            assert(t.skip(2)[0] == t[2] && t.skip(2)[1] == t[3]);
                        }
                        return Err(DecodeError::Format);
                    },
                };
                proof {
                    assert(t.skip(2)[0] == t[2] && t.skip(2)[1] == t[3]);
                    assert(reader@ =~= t.skip(4));
                }
                let dest: Position = match reader.read_pos() {
                    Ok(p) => p,
                    Err(()) => {
                        proof {
                            assert(t.skip(4)[0] == t[4] && t.skip(4)[1] == t[5]);
                        }
                        return Err(DecodeError::Format);
                    },
                };
                proof {
                    assert(t.skip(4)[0] == t[4] && t.skip(4)[1] == t[5]);
                    assert(reader@ =~= t.skip(6));
                }
                let promo: Option<PieceKind> = match reader.read_promotion_type() {
                    Ok(p) => p,
                    Err(()) => {
                        proof {
                            assert(t.skip(6)[0] == t[6]);
                        }
                        return Err(DecodeError::Format);
                    },
                };
                proof {
                    assert(t.skip(6)[0] == t[6]);
                    assert(reader@ =~= t.skip(7));
                }
                if promo.is_some() {
                    return Err(DecodeError::Format);
                }
                HalfMoveRequest::Standard { source, dest }
            } else if kind_byte == 'P' as u8 {
                let col_byte: u8 = match reader.read() {
                    Ok(b) => b,
                    Err(()) => {
                        return Err(DecodeError::Format);
                    },
                };
                proof {
                    assert(col_byte == t[2]);
                    assert(reader@ =~= t.skip(3));
                }
                if !('A' as u8 <= col_byte && col_byte <= 'H' as u8) {
                    return Err(DecodeError::Format);
                }
                let promo: Option<PieceKind> = match reader.read_promotion_type() {
                    Ok(p) => p,
                    Err(()) => {
                        proof {
                            assert(t.skip(3)[0] == t[3]);
                        }
                        return Err(DecodeError::Format);
                    },
                };
                proof {
                    assert(t.skip(3)[0] == t[3]);
                    assert(reader@ =~= t.skip(4));
                }
                let kind: PieceKind = match promo {
                    Some(kind) => kind,
                    None => {
                        return Err(DecodeError::Format);
                    },
                };
                if !kind.is_promotable() {
                    return Err(DecodeError::Format);
                }
                HalfMoveRequest::Promotion { column: col_byte - 'A' as u8, kind }
            } else {
                return Err(DecodeError::Format);
            };
            let ghost u = reader@;
            proof {
                assert(spec_decode_move(t) == spec_decode_tail(u, player, mv));
            }
            let state: GameStateType = match reader.read_game_state() {
                Ok(g) => g,
                Err(()) => {
                    return Err(DecodeError::Format);
                },
            };
            proof {
                assert(reader@ =~= u.skip(3));
            }
            match reader.check_and_skip(':' as u8) {
                Ok(()) => {},
                Err(()) => {
                    proof {
                        assert(u.skip(3)[0] == u[3]);
                    }
                    return Err(DecodeError::Format);
                },
            }
            proof {
                assert(u.skip(3)[0] == u[3]);
                assert(reader@ =~= u.skip(4));
            }
            let ghost v = u.skip(4);
            let fen: &[u8] = match reader.read_up_to(':' as u8) {
                Ok(f) => f,
                Err(()) => {
                    return Err(DecodeError::Format);
                },
            };
            let ghost flen = fen@.len() as int;
            proof {
                crate::cursor::lemma_find_props(v, ':' as u8);
            }
            let board: Board = match crate::fen::board_from_fen(fen) {
                Some(b) => b,
                None => {
                    return Err(DecodeError::Codec);
                },
            };
            match reader.check_and_skip(':' as u8) {
                Ok(()) => {},
                Err(()) => {
                    proof {
                        crate::cursor::lemma_find_props(v, ':' as u8);
                        assert(v.skip(flen)[0] == v[flen]);
                        assert(false);
                    }
                    return Err(DecodeError::Format);
                },
            }
            proof {
                assert(reader@ =~= v.skip(flen + 1));
            }
            match reader.check_rest(0) {
                Ok(()) => {},
                Err(()) => {
                    return Err(DecodeError::Format);
                },
            }
            let m = Message::ChessMove {
                player,
                chess_move: mv,
                new_game_state: state,
                new_board: board,
            };
            proof {
                assert(spec_decode(s) == Ok::<SpecMessage, DecodeError>(m.model()));
            }
            Ok(m)
        } else if tag == 'Q' as u8 {
            let ghost t = s.skip(1);
            let payload_bytes: &[u8] = match reader.read_up_to(0) {
                Ok(p) => p,
                Err(()) => {
                    return Err(DecodeError::Format);
                },
            };
            let ghost plen = payload_bytes@.len() as int;
            proof {
                crate::cursor::lemma_find_props(t, 0u8);
            }
            match reader.check_rest(0) {
                Ok(()) => {},
                Err(()) => {
                    proof {
                        let j = choose|j: int|
                            0 <= j < t.skip(plen).len() && t.skip(plen)[j] != 0;
                        assert(t[plen + j] != 0);
                    }
                    return Err(DecodeError::Format);
                },
            }
            proof {
                assert(forall|j: int|
                    plen <= j < t.len() ==> t[j] == t.skip(plen)[j - plen]);
            }
            let n = payload_bytes.len();
            let mut j: usize = 0;
            while j < n
                invariant
                    j <= n,
                    n == payload_bytes@.len(),
                    forall|k: int| 0 <= k < j ==> payload_bytes@[k] < 128,
                decreases n - j,
            {
                if payload_bytes[j] >= 128 {
                    proof {
                        assert(t.take(plen)[j as int] == payload_bytes@[j as int]);
                    }
                    return Err(DecodeError::Format);
                }
                j += 1;
            }
            let payload: String = string_from_ascii_bytes(vstd::slice::slice_to_vec(
                payload_bytes,
            ));
            let m = Message::ChessQuit { payload };
            proof {
                assert(payload@ == spec_chars_of_bytes(t.take(plen)));
                crate::cursor::lemma_find_props(t, 0u8);
                assert forall|i: int| 0 <= i < payload@.len() implies spec_char_ok(
                    #[trigger] payload@[i],
                ) by {
                    let b = t.take(plen)[i];
                    assert(b == t[i]);
                    assert(b != 0);
                    assert(b == payload_bytes@[i]);
                    assert(b < 128);
                    assert(payload@[i] == b as char);
                }
                assert(plen < t.len());
                assert(m.wf());
                assert forall|j: int| 0 <= j < plen implies t[j] < 128 by {
                    assert(t.take(plen)[j] == payload_bytes@[j]);
                }
                assert(spec_decode(s) == Ok::<SpecMessage, DecodeError>(m.model()));
            }
            Ok(m)
        } else {
            return Err(DecodeError::Format);
        }
    }
}

} // verus!

