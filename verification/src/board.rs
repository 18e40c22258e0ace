//! The board data model: colors, piece kinds, squares, and an 8x8 board that
//! maps each square to an optional piece.

use vstd::prelude::*;

verus! {

/// The side a player or piece belongs to.
#[derive(Clone, Copy, Debug, PartialEq, Eq, Structural)]
pub enum Color {
    White,
    Black,
}

impl Color {
    /// The opposing side.
    pub open spec fn spec_other(self) -> Color {
        if self is White {
            Color::Black
        } else {
            Color::White
        }
    }

    /// The opposing side.
    #[verifier::when_used_as_spec(spec_other)]
    pub fn other(self) -> (r: Color)
        ensures
            r == self.spec_other(),
    {
        match self {
            Color::White => Color::Black,
            Color::Black => Color::White,
        }
    }
}

/// The kind of a chess piece.
#[derive(Clone, Copy, Debug, PartialEq, Eq, Structural)]
pub enum PieceKind {
    Pawn,
    Knight,
    Bishop,
    Rook,
    Queen,
    King,
}

impl PieceKind {
    /// Whether a pawn may promote to this kind.
    pub open spec fn spec_is_promotable(self) -> bool {
        self is Knight || self is Bishop || self is Rook || self is Queen
    }

    /// Whether a pawn may promote to this kind.
    #[verifier::when_used_as_spec(spec_is_promotable)]
    pub fn is_promotable(self) -> (r: bool)
        ensures
            r == self.spec_is_promotable(),
    {
        match self {
            PieceKind::Knight | PieceKind::Bishop | PieceKind::Rook | PieceKind::Queen => true,
            PieceKind::Pawn | PieceKind::King => false,
        }
    }
}

/// A piece: a kind together with the side it belongs to.
#[derive(Clone, Copy, Debug, PartialEq, Eq, Structural)]
pub struct Piece {
    pub kind: PieceKind,
    pub color: Color,
}

/// A board square, given as a column (file) and a row (rank), each in `0..8`.
#[derive(Clone, Copy, Debug, PartialEq, Eq, Structural)]
pub struct Position {
    pub col: u8,
    pub row: u8,
}

impl Position {
    /// Both coordinates lie on the board.
    pub open spec fn wf(self) -> bool {
        self.col < 8 && self.row < 8
    }

    /// A position from a column and a row, if both lie on the board.
    pub fn new(col: u8, row: u8) -> (r: Option<Position>)
        ensures
            r matches Some(p) ==> p == (Position { col, row }) && p.wf(),
            r is None <==> (col >= 8 || row >= 8),
    {
        if col < 8 && row < 8 {
            Some(Position { col, row })
        } else {
            None
        }
    }
}

/// The index of the square `(col, row)` in a board's square sequence.
pub open spec fn sq(col: int, row: int) -> int {
    row * 8 + col
}

/// An 8x8 board, mapping each square to an optional piece.
///
/// Its view is the sequence of 64 squares, ordered row by row from row 0,
/// each row from column 0; square `(col, row)` is at index [`sq`]`(col, row)`.
#[derive(Clone, Debug)]
pub struct Board {
    squares: Vec<Option<Piece>>,
}

impl View for Board {
    type V = Seq<Option<Piece>>;

    closed spec fn view(&self) -> Seq<Option<Piece>> {
        self.squares@
    }
}

impl Board {
    /// The board holds exactly its 64 squares.
    pub open spec fn wf(self) -> bool {
        self@.len() == 64
    }

    /// A board with every square empty.
    pub fn new_empty() -> (b: Board)
        ensures
            b.wf(),
            forall|i: int| 0 <= i < 64 ==> b@[i] is None,
    {
        Board { squares: vec![None; 64] }
    }

    /// The contents of the square at `pos`.
    pub fn at_position(&self, pos: Position) -> (r: Option<Piece>)
        requires
            self.wf(),
            pos.wf(),
        ensures
            r == self@[sq(pos.col as int, pos.row as int)],
    {
        self.squares[(pos.row as usize) * 8 + (pos.col as usize)]
    }

    /// An identical copy of this board.
    pub fn clone_board(&self) -> (r: Board)
        ensures
            r@ == self@,
    {
        Board { squares: vstd::slice::slice_to_vec(self.squares.as_slice()) }
    }

    /// Replaces the contents of the square at `pos`.
    pub fn set_position(&mut self, pos: Position, piece: Option<Piece>)
        requires
            old(self).wf(),
            pos.wf(),
        ensures
            final(self).wf(),
            final(self)@ == old(self)@.update(sq(pos.col as int, pos.row as int), piece),
    {
        self.squares[(pos.row as usize) * 8 + (pos.col as usize)] = piece;
    }
}

/// Bounds and inversion facts for the square index.
pub proof fn lemma_sq_facts(c: int, r: int)
    requires
        0 <= c < 8,
        0 <= r < 8,
    ensures
        0 <= sq(c, r) < 64,
        sq(c, r) / 8 == r,
        sq(c, r) % 8 == c,
{
}

/// The piece kind that starts the game in `col` of a back rank.
pub open spec fn spec_back_rank_kind(col: int) -> PieceKind {
    if col == 0 || col == 7 {
        PieceKind::Rook
    } else if col == 1 || col == 6 {
        PieceKind::Knight
    } else if col == 2 || col == 5 {
        PieceKind::Bishop
    } else if col == 3 {
        PieceKind::Queen
    } else {
        PieceKind::King
    }
}

/// What the square at `(col, row)` holds when a game starts: white's pieces
/// on rows 0 and 1, black's on rows 6 and 7.
pub open spec fn spec_standard_square(col: int, row: int) -> Option<Piece> {
    if row == 0 {
        Some(Piece { kind: spec_back_rank_kind(col), color: Color::White })
    } else if row == 1 {
        Some(Piece { kind: PieceKind::Pawn, color: Color::White })
    } else if row == 6 {
        Some(Piece { kind: PieceKind::Pawn, color: Color::Black })
    } else if row == 7 {
        Some(Piece { kind: spec_back_rank_kind(col), color: Color::Black })
    } else {
        None
    }
}

impl Board {
    /// The standard starting position.
    pub fn new_standard() -> (b: Board)
        ensures
            b.wf(),
            forall|c: int, r: int|
                0 <= c < 8 && 0 <= r < 8 ==> b@[sq(c, r)] == spec_standard_square(c, r),
    {
        let mut b = Board::new_empty();
        proof {
            assert forall|c: int, r: int| 0 <= c < 8 && 0 <= r < 8 implies b@[sq(c, r)]
                is None by {
                lemma_sq_facts(c, r);
            }
        }
        let mut col: u8 = 0;
        while col < 8
            invariant
                col <= 8,
                b.wf(),
                forall|c: int, r: int|
                    0 <= c < 8 && 0 <= r < 8 ==> b@[sq(c, r)] == (if c < col {
                        spec_standard_square(c, r)
                    } else {
                        None
                    }),
            decreases 8 - col,
        {
            let back: PieceKind = if col == 0 || col == 7 {
                PieceKind::Rook
            } else if col == 1 || col == 6 {
                PieceKind::Knight
            } else if col == 2 || col == 5 {
                PieceKind::Bishop
            } else if col == 3 {
                PieceKind::Queen
            } else {
                PieceKind::King
            };
            let ghost prev = b@;
            b.set_position(
                Position { col, row: 0 },
                Some(Piece { kind: back, color: Color::White }),
            );
            b.set_position(
                Position { col, row: 1 },
                Some(Piece { kind: PieceKind::Pawn, color: Color::White }),
            );
            b.set_position(
                Position { col, row: 6 },
                Some(Piece { kind: PieceKind::Pawn, color: Color::Black }),
            );
            b.set_position(
                Position { col, row: 7 },
                Some(Piece { kind: back, color: Color::Black }),
            );
            proof {
                assert forall|c: int, r: int| 0 <= c < 8 && 0 <= r < 8 implies b@[sq(c, r)] == (
                if c < col + 1 {
                    spec_standard_square(c, r)
                } else {
                    None
                }) by {
                    lemma_sq_facts(c, r);
                    lemma_sq_facts(col as int, 0);
                    lemma_sq_facts(col as int, 1);
                    lemma_sq_facts(col as int, 6);
                    lemma_sq_facts(col as int, 7);
                }
            }
            col += 1;
        }
        b
    }
}

/// Whether two optional pieces are the same.
pub fn slot_eq(a: Option<Piece>, b: Option<Piece>) -> (r: bool)
    ensures
        r == (a == b),
{
    match (a, b) {
        (None, None) => true,
        (Some(x), Some(y)) => x == y,
        _ => false,
    }
}

impl PartialEq for Board {
    /// Two boards are equal when every square holds the same contents.
    fn eq(&self, other: &Board) -> (r: bool) {
        if self.squares.len() != other.squares.len() {
            return false;
        }
        let n = self.squares.len();
        let mut i: usize = 0;
        while i < n
            invariant
                i <= n,
                n == self@.len(),
                n == other@.len(),
                forall|j: int| 0 <= j < i ==> self@[j] == other@[j],
            decreases n - i,
        {
            if !slot_eq(self.squares[i], other.squares[i]) {
                return false;
            }
            i += 1;
        }
        proof {
            assert(self@ =~= other@);
        }
        true
    }
}

impl vstd::std_specs::cmp::PartialEqSpecImpl for Board {
    open spec fn obeys_eq_spec() -> bool {
        true
    }

    open spec fn eq_spec(&self, other: &Board) -> bool {
        self@ == other@
    }
}

impl Eq for Board {

}

/// Whether the square at the given `(column, row)` index pair is drawn dark.
pub fn is_dark_square(square_index: (u8, u8)) -> (r: bool)
    ensures
        r == ((square_index.0 as int + square_index.1 as int) % 2 == 0),
{
    (square_index.0 as u16 + square_index.1 as u16) % 2 == 0
}

} // verus!
