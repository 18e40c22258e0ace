//! Wire protocol and reconciliation logic for a networked two-player chess
//! session: a run-length board codec, bounds-checked message build/read
//! cursors, a fixed-size message encoding, and the policy that reconciles a
//! locally replayed move against the outcome a remote peer claims.

pub mod board;
pub mod cell;
pub mod cursor;
pub mod fen;
pub mod protocol;
pub mod session;

pub use board::{Board, Color, Piece, PieceKind, Position};
pub use cell::ReplaceCell;
pub use cursor::{GameStateType, MessageBuilder, MessageReader};
pub use protocol::{BUFFER_SIZE, DecodeError, EncodeError, HalfMoveRequest, Message};
pub use session::{MoveOutcome, ReconcileAction, Session, SessionStatus};
