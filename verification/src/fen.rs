//! The board codec: a board is written as one line of text, eight ranks from
//! row 7 down to row 0 separated by `/`; within a rank each occupied square is
//! one ASCII letter (uppercase white, lowercase black) and each run of empty
//! squares is one decimal digit `1`-`8`.

use vstd::prelude::*;
use crate::board::{Board, Color, Piece, PieceKind, Position, lemma_sq_facts, sq};

verus! {

/// The letter that stands for a piece: `P`/`N`/`B`/`R`/`Q`/`K` for white,
/// the lowercase letter for black.
pub open spec fn spec_piece_char(p: Piece) -> u8 {
    match (p.color, p.kind) {
        (Color::White, PieceKind::Pawn) => 'P' as u8,
        (Color::White, PieceKind::Knight) => 'N' as u8,
        (Color::White, PieceKind::Bishop) => 'B' as u8,
        (Color::White, PieceKind::Rook) => 'R' as u8,
        (Color::White, PieceKind::Queen) => 'Q' as u8,
        (Color::White, PieceKind::King) => 'K' as u8,
        (Color::Black, PieceKind::Pawn) => 'p' as u8,
        (Color::Black, PieceKind::Knight) => 'n' as u8,
        (Color::Black, PieceKind::Bishop) => 'b' as u8,
        (Color::Black, PieceKind::Rook) => 'r' as u8,
        (Color::Black, PieceKind::Queen) => 'q' as u8,
        (Color::Black, PieceKind::King) => 'k' as u8,
    }
}

/// The piece a letter stands for, if any.
pub open spec fn spec_piece_from_char(byte: u8) -> Option<Piece> {
    if byte == 'P' as u8 {
        Some(Piece { kind: PieceKind::Pawn, color: Color::White })
    } else if byte == 'N' as u8 {
        Some(Piece { kind: PieceKind::Knight, color: Color::White })
    } else if byte == 'B' as u8 {
        Some(Piece { kind: PieceKind::Bishop, color: Color::White })
    } else if byte == 'R' as u8 {
        Some(Piece { kind: PieceKind::Rook, color: Color::White })
    } else if byte == 'Q' as u8 {
        Some(Piece { kind: PieceKind::Queen, color: Color::White })
    } else if byte == 'K' as u8 {
        Some(Piece { kind: PieceKind::King, color: Color::White })
    } else if byte == 'p' as u8 {
        Some(Piece { kind: PieceKind::Pawn, color: Color::Black })
    } else if byte == 'n' as u8 {
        Some(Piece { kind: PieceKind::Knight, color: Color::Black })
    } else if byte == 'b' as u8 {
        Some(Piece { kind: PieceKind::Bishop, color: Color::Black })
    } else if byte == 'r' as u8 {
        Some(Piece { kind: PieceKind::Rook, color: Color::Black })
    } else if byte == 'q' as u8 {
        Some(Piece { kind: PieceKind::Queen, color: Color::Black })
    } else if byte == 'k' as u8 {
        Some(Piece { kind: PieceKind::King, color: Color::Black })
    } else {
        None
    }
}

/// Reading back the letter written for a piece gives the piece again.
pub proof fn lemma_piece_char_round_trip(p: Piece)
    ensures
        spec_piece_from_char(spec_piece_char(p)) == Some(p),
{
}

/// The letter that stands for `piece` on the wire.
pub fn piece_to_char(piece: Piece) -> (r: u8)
    ensures
        r == spec_piece_char(piece),
{
    match (piece.color, piece.kind) {
        (Color::White, PieceKind::Pawn) => 'P' as u8,
        (Color::White, PieceKind::Knight) => 'N' as u8,
        (Color::White, PieceKind::Bishop) => 'B' as u8,
        (Color::White, PieceKind::Rook) => 'R' as u8,
        (Color::White, PieceKind::Queen) => 'Q' as u8,
        (Color::White, PieceKind::King) => 'K' as u8,
        (Color::Black, PieceKind::Pawn) => 'p' as u8,
        (Color::Black, PieceKind::Knight) => 'n' as u8,
        (Color::Black, PieceKind::Bishop) => 'b' as u8,
        (Color::Black, PieceKind::Rook) => 'r' as u8,
        (Color::Black, PieceKind::Queen) => 'q' as u8,
        (Color::Black, PieceKind::King) => 'k' as u8,
    }
}

/// The piece that `byte` stands for, or `None` for any other byte.
pub fn piece_from_char(byte: u8) -> (r: Option<Piece>)
    ensures
        r == spec_piece_from_char(byte),
{
    if byte == 'P' as u8 {
        Some(Piece { kind: PieceKind::Pawn, color: Color::White })
    } else if byte == 'N' as u8 {
        Some(Piece { kind: PieceKind::Knight, color: Color::White })
    } else if byte == 'B' as u8 {
        Some(Piece { kind: PieceKind::Bishop, color: Color::White })
    } else if byte == 'R' as u8 {
        Some(Piece { kind: PieceKind::Rook, color: Color::White })
    } else if byte == 'Q' as u8 {
        Some(Piece { kind: PieceKind::Queen, color: Color::White })
    } else if byte == 'K' as u8 {
        Some(Piece { kind: PieceKind::King, color: Color::White })
    } else if byte == 'p' as u8 {
        Some(Piece { kind: PieceKind::Pawn, color: Color::Black })
    } else if byte == 'n' as u8 {
        Some(Piece { kind: PieceKind::Knight, color: Color::Black })
    } else if byte == 'b' as u8 {
        Some(Piece { kind: PieceKind::Bishop, color: Color::Black })
    } else if byte == 'r' as u8 {
        Some(Piece { kind: PieceKind::Rook, color: Color::Black })
    } else if byte == 'q' as u8 {
        Some(Piece { kind: PieceKind::Queen, color: Color::Black })
    } else if byte == 'k' as u8 {
        Some(Piece { kind: PieceKind::King, color: Color::Black })
    } else {
        None
    }
}

/// The digit byte that closes a run of `pending` empty squares, or nothing
/// when no run is open.
pub open spec fn digit_if(pending: int) -> Seq<u8> {
    if pending > 0 {
        seq![('0' as u8 + pending) as u8]
    } else {
        Seq::empty()
    }
}

/// The encoding of row `row` from column `col` on, with a run of `pending`
/// empty squares open just before `col`.
pub open spec fn spec_rank_fen_from(s: Seq<Option<Piece>>, row: int, col: int, pending: int) -> Seq<u8>
    decreases 8 - col,
{
    if 0 <= col < 8 {
        match s[sq(col, row)] {
            Some(p) => digit_if(pending) + seq![spec_piece_char(p)] + spec_rank_fen_from(
                s,
                row,
                col + 1,
                0,
            ),
            None => spec_rank_fen_from(s, row, col + 1, pending + 1),
        }
    } else {
        digit_if(pending)
    }
}

/// The encoding of one whole row.
pub open spec fn spec_rank_fen(s: Seq<Option<Piece>>, row: int) -> Seq<u8> {
    spec_rank_fen_from(s, row, 0, 0)
}

/// The encoding of rows `row` down to 0, separated by `/`.
pub open spec fn spec_ranks_fen(s: Seq<Option<Piece>>, row: int) -> Seq<u8>
    decreases row,
{
    if row > 0 {
        spec_rank_fen(s, row) + seq!['/' as u8] + spec_ranks_fen(s, row - 1)
    } else {
        spec_rank_fen(s, 0)
    }
}

/// The full board encoding: rows 7 down to 0.
pub open spec fn spec_board_fen(s: Seq<Option<Piece>>) -> Seq<u8> {
    spec_ranks_fen(s, 7)
}

/// The state of a board decode in progress: the squares filled so far, the
/// column the cursor stands in, and how many rows are already complete.
/// The row being filled is row `7 - rows_done`.
#[verifier::ext_equal]
pub struct FenParse {
    pub squares: Seq<Option<Piece>>,
    pub col: int,
    pub rows_done: int,
}

/// The decode state before any byte is read: an empty board, cursor at the
/// start of the far row.
pub open spec fn spec_fen_init() -> FenParse {
    FenParse { squares: Seq::new(64, |i: int| None), col: 0, rows_done: 0 }
}

/// One step of the board decode: how one byte changes the state, or `None`
/// when the byte is invalid where it stands.
pub open spec fn spec_fen_step(st: Option<FenParse>, byte: u8) -> Option<FenParse> {
    match st {
        None => None,
        Some(p) => match spec_piece_from_char(byte) {
            Some(piece) => if p.col < 8 && p.rows_done < 8 {
                Some(
                    FenParse {
                        squares: p.squares.update(sq(p.col, 7 - p.rows_done), Some(piece)),
                        col: p.col + 1,
                        rows_done: p.rows_done,
                    },
                )
            } else {
                None
            },
            None => if '1' as u8 <= byte <= '8' as u8 {
                let run = byte - '0' as u8;
                if p.col + run <= 8 {
                    Some(FenParse { squares: p.squares, col: p.col + run, rows_done: p.rows_done })
                } else {
                    None
                }
            } else if byte == '/' as u8 {
                if p.col == 8 && p.rows_done <= 6 {
                    Some(FenParse { squares: p.squares, col: 0, rows_done: p.rows_done + 1 })
                } else {
                    None
                }
            } else {
                None
            },
        },
    }
}

/// The board decode folded over a byte sequence, front to back.
pub open spec fn spec_fen_fold(st: Option<FenParse>, s: Seq<u8>) -> Option<FenParse>
    decreases s.len(),
{
    if s.len() == 0 {
        st
    } else {
        spec_fen_fold(spec_fen_step(st, s[0]), s.drop_first())
    }
}

/// What decoding a byte sequence as a board yields: the 64 squares, or `None`
/// unless every byte is valid, every row fills exactly 8 files, and exactly
/// 8 rows are given.
pub open spec fn spec_board_from_fen(s: Seq<u8>) -> Option<Seq<Option<Piece>>> {
    match spec_fen_fold(Some(spec_fen_init()), s) {
        Some(p) => if p.col == 8 && p.rows_done == 7 {
            Some(p.squares)
        } else {
            None
        },
        None => None,
    }
}

/// A failed decode stays failed, whatever bytes follow.
proof fn lemma_fen_fold_none(s: Seq<u8>)
    ensures
        spec_fen_fold(None, s) is None,
    decreases s.len(),
{
    if s.len() > 0 {
        lemma_fen_fold_none(s.drop_first());
    }
}

/// Folding over two byte sequences in turn is folding over their
/// concatenation.
proof fn lemma_fen_fold_concat(st: Option<FenParse>, a: Seq<u8>, b: Seq<u8>)
    ensures
        spec_fen_fold(st, a + b) == spec_fen_fold(spec_fen_fold(st, a), b),
    decreases a.len(),
{
    if a.len() == 0 {
        assert(a + b =~= b);
    } else {
        assert((a + b).drop_first() =~= a.drop_first() + b);
        lemma_fen_fold_concat(spec_fen_step(st, a[0]), a.drop_first(), b);
    }
}

/// Encodes a board as its run-length text form.
pub fn board_to_fen(board: &Board) -> (r: Vec<u8>)
    requires
        board.wf(),
    ensures
        r@ == spec_board_fen(board@),
{
    let mut vec: Vec<u8> = Vec::new();
    let mut idx: usize = 0;
    while idx < 8
        invariant
            board.wf(),
            idx <= 8,
            idx < 8 ==> vec@ + spec_ranks_fen(board@, 7 - idx as int) == spec_board_fen(board@),
            idx == 8 ==> vec@ == spec_board_fen(board@),
        decreases 8 - idx,
    {
        let row: u8 = 7 - idx as u8;
        let ghost vec0: Seq<u8> = vec@;
        let mut col: u8 = 0;
        let mut pending: u8 = 0;
        while col < 8
            invariant
                board.wf(),
                col <= 8,
                pending <= col,
                row == 7 - idx,
                idx < 8,
                vec@ + spec_rank_fen_from(board@, row as int, col as int, pending as int) == vec0
                    + spec_rank_fen(board@, row as int),
            decreases 8 - col,
        {
            let pos = Position { col, row };
            match board.at_position(pos) {
                None => {
                    pending += 1;
                },
                Some(piece) => {
                    let ghost before: Seq<u8> = vec@;
                    let ghost pend0: int = pending as int;
                    if pending > 0 {
                        vec.push('0' as u8 + pending);
                    }
                    vec.push(piece_to_char(piece));
                    pending = 0;
                    proof {
                        let rest = spec_rank_fen_from(board@, row as int, col as int + 1, 0);
                        assert(vec@ =~= before + digit_if(pend0) + seq![spec_piece_char(piece)]);
                        assert(vec@ + rest =~= before + (digit_if(pend0) + seq![
                            spec_piece_char(piece),
                        ] + rest));
                    }
                },
            }
            col += 1;
        }
        if pending > 0 {
            vec.push('0' as u8 + pending);
            proof {
                assert(vec@ =~= vec0 + spec_rank_fen(board@, row as int));
            }
        }
        if row != 0 {
            vec.push('/' as u8);
            proof {
                assert(vec@ + spec_ranks_fen(board@, row as int - 1) =~= (vec0 + spec_rank_fen(
                    board@,
                    row as int,
                )) + (seq!['/' as u8] + spec_ranks_fen(board@, row as int - 1)));
                assert(spec_ranks_fen(board@, row as int) == spec_rank_fen(board@, row as int)
                    + seq!['/' as u8] + spec_ranks_fen(board@, row as int - 1));
                assert((vec0 + spec_rank_fen(board@, row as int)) + (seq!['/' as u8]
                    + spec_ranks_fen(board@, row as int - 1)) =~= vec0 + spec_ranks_fen(
                    board@,
                    row as int,
                ));
            }
        }
        idx += 1;
    }
    vec
}

/// Decodes the run-length text form back into a board; fails on any byte that
/// is not a piece letter, a digit `1`-`8`, or `/`, on any row that does not
/// fill exactly 8 files, and unless exactly 8 rows are given.
pub fn board_from_fen(fen: &[u8]) -> (r: Option<Board>)
    ensures
        r matches Some(b) ==> b.wf() && spec_board_from_fen(fen@) == Some(b@),
        r is None ==> spec_board_from_fen(fen@) is None,
{
    let ghost init: Option<FenParse> = Some(spec_fen_init());
    let mut board = Board::new_empty();
    let mut file: u8 = 0;
    let mut rank: u8 = 0;
    let n = fen.len();
    let mut i: usize = 0;
    proof {
        assert(board@ =~= spec_fen_init().squares);
        assert(fen@.take(0) =~= Seq::empty());
    }
    while i < n
        invariant
            i <= n,
            n == fen@.len(),
            board.wf(),
            file <= 8,
            rank <= 7,
            spec_fen_fold(init, fen@.take(i as int)) == Some(
                FenParse { squares: board@, col: file as int, rows_done: rank as int },
            ),
            init == Some(spec_fen_init()),
        decreases n - i,
    {
        let byte = fen[i];
        proof {
            lemma_fen_fold_snoc(init, fen@, i as int);
        }
        match piece_from_char(byte) {
            Some(piece) => {
                if file >= 8 || rank >= 8 {
                    proof {
                        lemma_fen_fold_tail_none(init, fen@, i as int);
                    }
                    return None;
                }
                let pos = Position { col: file, row: 7 - rank };
                board.set_position(pos, Some(piece));
                file += 1;
            },
            None => {
                if ('1' as u8) <= byte && byte <= ('8' as u8) {
                    let run = byte - ('0' as u8);
                    if run + file > 8 {
                        proof {
                            lemma_fen_fold_tail_none(init, fen@, i as int);
                        }
                        return None;
                    }
                    file += run;
                } else if byte == ('/' as u8) {
                    if file != 8 || rank > 6 {
                        proof {
                            lemma_fen_fold_tail_none(init, fen@, i as int);
                        }
                        return None;
                    }
                    file = 0;
                    rank += 1;
                } else {
                    proof {
                        lemma_fen_fold_tail_none(init, fen@, i as int);
                    }
                    return None;
                }
            },
        }
        i += 1;
    }
    proof {
        assert(fen@.take(n as int) =~= fen@);
    }
    if file == 8 && rank == 7 {
        Some(board)
    } else {
        None
    }
}

/// Once one more byte fails the decode, the whole sequence fails it.
proof fn lemma_fen_fold_tail_none(init: Option<FenParse>, s: Seq<u8>, i: int)
    requires
        0 <= i < s.len(),
        spec_fen_step(spec_fen_fold(init, s.take(i)), s[i]) is None,
    ensures
        spec_fen_fold(init, s) is None,
{
    lemma_fen_fold_snoc(init, s, i);
    assert(s =~= s.take(i + 1) + s.skip(i + 1));
    lemma_fen_fold_concat(init, s.take(i + 1), s.skip(i + 1));
    lemma_fen_fold_none(s.skip(i + 1));
}

/// Folding over one more byte at the back is one more step.
proof fn lemma_fen_fold_snoc(st: Option<FenParse>, s: Seq<u8>, i: int)
    requires
        0 <= i < s.len(),
    ensures
        spec_fen_fold(st, s.take(i + 1)) == spec_fen_step(spec_fen_fold(st, s.take(i)), s[i]),
    decreases s.len(),
{
    assert(s.take(i + 1) =~= s.take(i) + seq![s[i]]);
    lemma_fen_fold_concat(st, s.take(i), seq![s[i]]);
    let one = seq![s[i]];
    assert(one[0] == s[i]);
    assert(one.drop_first() =~= Seq::empty());
    let st1 = spec_fen_fold(st, s.take(i));
    let st2 = spec_fen_step(st1, s[i]);
    assert(spec_fen_fold(st2, Seq::empty()) == st2);
    assert(spec_fen_fold(st1, one) == spec_fen_fold(st2, one.drop_first()));
}

/// Folding the decode over a single byte is one step of it.
proof fn lemma_fen_fold_one(st: Option<FenParse>, byte: u8)
    ensures
        spec_fen_fold(st, seq![byte]) == spec_fen_step(st, byte),
{
    let one = seq![byte];
    assert(one[0] == byte);
    assert(one.drop_first() =~= Seq::empty());
    assert(spec_fen_fold(spec_fen_step(st, byte), Seq::empty()) == spec_fen_step(st, byte));
}

/// `acc` with row `row` overwritten by `s` from column `from_col` on.
spec fn with_row_suffix(
    acc: Seq<Option<Piece>>,
    s: Seq<Option<Piece>>,
    row: int,
    from_col: int,
) -> Seq<Option<Piece>> {
    Seq::new(64, |i: int| if i / 8 == row && i % 8 >= from_col { s[i] } else { acc[i] })
}

/// Decoding the encoding of one row fills exactly that row's squares.
proof fn lemma_rank_round_trip(s: Seq<Option<Piece>>, row: int, col: int, pending: int, st: FenParse)
    requires
        s.len() == 64,
        0 <= row < 8,
        0 <= pending <= col <= 8,
        st.col == col - pending,
        st.rows_done == 7 - row,
        st.squares.len() == 64,
        forall|c: int| col - pending <= c < col ==> s[#[trigger] sq(c, row)] is None,
        forall|c: int| col - pending <= c < 8 ==> st.squares[#[trigger] sq(c, row)] is None,
    ensures
        spec_fen_fold(Some(st), spec_rank_fen_from(s, row, col, pending)) == Some(
            FenParse {
                squares: with_row_suffix(st.squares, s, row, col - pending),
                col: 8,
                rows_done: 7 - row,
            },
        ),
    decreases 8 - col,
{
    let from_col = col - pending;
    let target = with_row_suffix(st.squares, s, row, from_col);
    if col >= 8 {
        assert forall|i: int| 0 <= i < 64 implies target[i] == st.squares[i] by {
            if i / 8 == row && i % 8 >= from_col {
                lemma_sq_facts(i % 8, i / 8);
                assert(sq(i % 8, i / 8) == i);
                assert(s[i] is None);
                assert(st.squares[i] is None);
            }
        }
        assert(target =~= st.squares);
        if pending == 0 {
            assert(spec_rank_fen_from(s, row, col, pending) =~= Seq::<u8>::empty());
        } else {
            let digit = ('0' as u8 + pending) as u8;
            lemma_fen_fold_one(Some(st), digit);
            assert(spec_piece_from_char(digit) is None);
            assert(spec_fen_step(Some(st), digit) == Some(
                FenParse { squares: st.squares, col: 8, rows_done: 7 - row },
            ));
        }
    } else {
        match s[sq(col, row)] {
            None => {
                lemma_rank_round_trip(s, row, col + 1, pending + 1, st);
            },
            Some(p) => {
                let digits = digit_if(pending as int);
                let ch = spec_piece_char(p);
                let rest = spec_rank_fen_from(s, row, col + 1, 0);
                assert(spec_rank_fen_from(s, row, col, pending) == digits + seq![ch] + rest);
                lemma_fen_fold_concat(Some(st), digits + seq![ch], rest);
                lemma_fen_fold_concat(Some(st), digits, seq![ch]);
                let st1 = FenParse { squares: st.squares, col: col, rows_done: 7 - row };
                if pending == 0 {
                    assert(digits =~= Seq::<u8>::empty());
                    assert(spec_fen_fold(Some(st), digits) == Some(st));
                    assert(st == st1);
                } else {
                    let digit = ('0' as u8 + pending) as u8;
                    assert(digits =~= seq![digit]);
                    lemma_fen_fold_one(Some(st), digit);
                    assert(spec_piece_from_char(digit) is None);
                    assert(spec_fen_fold(Some(st), digits) == Some(st1));
                }
                lemma_piece_char_round_trip(p);
                lemma_fen_fold_one(Some(st1), ch);
                let st2 = FenParse {
                    squares: st.squares.update(sq(col, row), Some(p)),
                    col: col + 1,
                    rows_done: 7 - row,
                };
                assert(spec_fen_step(Some(st1), ch) == Some(st2));
                assert forall|c: int| col + 1 <= c < 8 implies st2.squares[#[trigger] sq(c, row)]
                    is None by {
                    lemma_sq_facts(c, row);
                    lemma_sq_facts(col, row);
                    assert(sq(c, row) != sq(col, row));
                }
                lemma_rank_round_trip(s, row, col + 1, 0, st2);
                let inner = with_row_suffix(st2.squares, s, row, col + 1);
                assert forall|i: int| 0 <= i < 64 implies inner[i] == target[i] by {
                    lemma_sq_facts(i % 8, i / 8);
                    assert(sq(i % 8, i / 8) == i);
                    lemma_sq_facts(col, row);
                    if i / 8 == row && i % 8 >= from_col {
                        if i % 8 == col {
                            assert(i == sq(col, row));
                            assert(inner[i] == Some(p));
                            assert(target[i] == s[i]);
                        } else if i % 8 < col {
                            assert(s[i] is None);
                            assert(st.squares[i] is None);
                            assert(i != sq(col, row));
                        }
                    } else {
                        assert(i != sq(col, row));
                    }
                }
                assert(inner =~= target);
            },
        }
    }
}

/// Decoding the encoding of rows `row` down to 0 fills exactly those rows.
proof fn lemma_ranks_round_trip(s: Seq<Option<Piece>>, row: int, st: FenParse)
    requires
        s.len() == 64,
        0 <= row < 8,
        st.col == 0,
        st.rows_done == 7 - row,
        st.squares.len() == 64,
        forall|i: int| 0 <= i < 64 && i / 8 <= row ==> st.squares[i] is None,
    ensures
        spec_fen_fold(Some(st), spec_ranks_fen(s, row)) == Some(
            FenParse {
                squares: Seq::new(
                    64,
                    |i: int| if i / 8 <= row { s[i] } else { st.squares[i] },
                ),
                col: 8,
                rows_done: 7,
            },
        ),
    decreases row,
{
    assert forall|c: int| 0 <= c < 8 implies st.squares[#[trigger] sq(c, row)] is None by {
        lemma_sq_facts(c, row);
    }
    lemma_rank_round_trip(s, row, 0, 0, st);
    let st1 = FenParse {
        squares: with_row_suffix(st.squares, s, row, 0),
        col: 8,
        rows_done: 7 - row,
    };
    let target = Seq::new(64, |i: int| if i / 8 <= row { s[i] } else { st.squares[i] });
    if row == 0 {
        assert(spec_ranks_fen(s, 0) == spec_rank_fen(s, 0));
        assert forall|i: int| 0 <= i < 64 implies st1.squares[i] == target[i] by {
            lemma_sq_facts(i % 8, i / 8);
        }
        assert(st1.squares =~= target);
        assert(st1 == FenParse { squares: target, col: 8, rows_done: 7 });
    } else {
        lemma_fen_fold_concat(Some(st), spec_rank_fen(s, row) + seq!['/' as u8], spec_ranks_fen(s, row - 1));
        lemma_fen_fold_concat(Some(st), spec_rank_fen(s, row), seq!['/' as u8]);
        lemma_fen_fold_one(Some(st1), '/' as u8);
        assert(spec_piece_from_char('/' as u8) is None);
        let st2 = FenParse { squares: st1.squares, col: 0, rows_done: 7 - row + 1 };
        assert(spec_fen_step(Some(st1), '/' as u8) == Some(st2));
        assert forall|i: int| 0 <= i < 64 && i / 8 <= row - 1 implies st2.squares[i] is None by {
            lemma_sq_facts(i % 8, i / 8);
        }
        lemma_ranks_round_trip(s, row - 1, st2);
        let inner = Seq::new(64, |i: int| if i / 8 <= row - 1 { s[i] } else { st2.squares[i] });
        assert forall|i: int| 0 <= i < 64 implies inner[i] == target[i] by {
            lemma_sq_facts(i % 8, i / 8);
        }
        assert(inner =~= target);
    }
}

/// Whether a byte can occur in a board encoding: a piece letter, a digit
/// `1`-`8`, or the row separator `/`.
pub open spec fn is_fen_byte(b: u8) -> bool {
    ||| spec_piece_from_char(b) is Some
    ||| '1' as u8 <= b <= '8' as u8
    ||| b == '/' as u8
}

/// A row encoding is at most 9 bytes long and holds only piece letters and
/// digits, never a separator.
proof fn lemma_rank_fen_props(s: Seq<Option<Piece>>, row: int, col: int, pending: int)
    requires
        0 <= pending <= col <= 8,
    ensures
        spec_rank_fen_from(s, row, col, pending).len() <= 8 - col + if pending > 0 {
            1int
        } else {
            0int
        },
        forall|i: int|
            0 <= i < spec_rank_fen_from(s, row, col, pending).len() ==> is_fen_byte(
                #[trigger] spec_rank_fen_from(s, row, col, pending)[i],
            ) && spec_rank_fen_from(s, row, col, pending)[i] != '/' as u8,
    decreases 8 - col,
{
    if 0 <= col < 8 {
        match s[sq(col, row)] {
            Some(p) => {
                lemma_rank_fen_props(s, row, col + 1, 0);
                lemma_piece_char_round_trip(p);
            },
            None => {
                lemma_rank_fen_props(s, row, col + 1, pending + 1);
            },
        }
    }
}

/// The encoding of rows `row` down to 0 is at most `9 * (row + 1) + row`
/// bytes long and holds only board-encoding bytes.
proof fn lemma_ranks_fen_props(s: Seq<Option<Piece>>, row: int)
    requires
        0 <= row < 8,
    ensures
        spec_ranks_fen(s, row).len() <= 9 * (row + 1) + row,
        forall|i: int|
            0 <= i < spec_ranks_fen(s, row).len() ==> is_fen_byte(
                #[trigger] spec_ranks_fen(s, row)[i],
            ),
    decreases row,
{
    lemma_rank_fen_props(s, row, 0, 0);
    if row > 0 {
        lemma_ranks_fen_props(s, row - 1);
    }
}

/// A full board encoding is at most 79 bytes long and holds only
/// board-encoding bytes; in particular it contains no `:` and no zero byte.
pub proof fn lemma_board_fen_props(s: Seq<Option<Piece>>)
    ensures
        spec_board_fen(s).len() <= 79,
        forall|i: int|
            0 <= i < spec_board_fen(s).len() ==> is_fen_byte(#[trigger] spec_board_fen(s)[i]),
        forall|i: int|
            0 <= i < spec_board_fen(s).len() ==> spec_board_fen(s)[i] != ':' as u8
                && spec_board_fen(s)[i] != 0,
{
    lemma_ranks_fen_props(s, 7);
}

/// How many times `b` occurs in `s`.
pub open spec fn spec_count_byte(s: Seq<u8>, b: u8) -> int
    decreases s.len(),
{
    if s.len() == 0 {
        0
    } else {
        (if s[0] == b {
            1int
        } else {
            0int
        }) + spec_count_byte(s.drop_first(), b)
    }
}

/// Counting over two byte sequences in turn is counting over their
/// concatenation.
proof fn lemma_count_byte_concat(a: Seq<u8>, c: Seq<u8>, b: u8)
    ensures
        spec_count_byte(a + c, b) == spec_count_byte(a, b) + spec_count_byte(c, b),
    decreases a.len(),
{
    if a.len() == 0 {
        assert(a + c =~= c);
    } else {
        assert((a + c).drop_first() =~= a.drop_first() + c);
        lemma_count_byte_concat(a.drop_first(), c, b);
    }
}

/// A sequence without `b` counts no occurrence of it.
proof fn lemma_count_byte_absent(s: Seq<u8>, b: u8)
    requires
        forall|i: int| 0 <= i < s.len() ==> s[i] != b,
    ensures
        spec_count_byte(s, b) == 0,
    decreases s.len(),
{
    if s.len() > 0 {
        assert(forall|i: int| 0 <= i < s.drop_first().len() ==> s.drop_first()[i] == s[i + 1]);
        lemma_count_byte_absent(s.drop_first(), b);
    }
}

/// The encoding of rows `row` down to 0 holds exactly `row` separators.
proof fn lemma_ranks_fen_separators(s: Seq<Option<Piece>>, row: int)
    requires
        0 <= row < 8,
    ensures
        spec_count_byte(spec_ranks_fen(s, row), '/' as u8) == row,
    decreases row,
{
    lemma_rank_fen_props(s, row, 0, 0);
    lemma_count_byte_absent(spec_rank_fen(s, row), '/' as u8);
    if row > 0 {
        lemma_ranks_fen_separators(s, row - 1);
        lemma_count_byte_concat(
            spec_rank_fen(s, row) + seq!['/' as u8],
            spec_ranks_fen(s, row - 1),
            '/' as u8,
        );
        lemma_count_byte_concat(spec_rank_fen(s, row), seq!['/' as u8], '/' as u8);
        let one = seq!['/' as u8];
        assert(one.drop_first() =~= Seq::<u8>::empty());
        assert(spec_count_byte(Seq::<u8>::empty(), '/' as u8) == 0);
        assert(spec_count_byte(one, '/' as u8) == 1);
    }
}

/// How many files one encoding byte covers: a digit its value, a piece
/// letter one file, anything else none.
pub open spec fn spec_file_weight(b: u8) -> int {
    if '1' as u8 <= b <= '8' as u8 {
        b - '0' as u8
    } else if spec_piece_from_char(b) is Some {
        1
    } else {
        0
    }
}

/// How many files a byte sequence covers in all.
pub open spec fn spec_files_covered(s: Seq<u8>) -> int
    decreases s.len(),
{
    if s.len() == 0 {
        0
    } else {
        spec_file_weight(s[0]) + spec_files_covered(s.drop_first())
    }
}

/// File counting over two byte sequences in turn is file counting over
/// their concatenation.
proof fn lemma_files_covered_concat(a: Seq<u8>, c: Seq<u8>)
    ensures
        spec_files_covered(a + c) == spec_files_covered(a) + spec_files_covered(c),
    decreases a.len(),
{
    if a.len() == 0 {
        assert(a + c =~= c);
    } else {
        assert((a + c).drop_first() =~= a.drop_first() + c);
        lemma_files_covered_concat(a.drop_first(), c);
    }
}

/// The encoding of row `row` from column `col` on covers the files from
/// the start of the open run to the rank's end.
proof fn lemma_rank_fen_files(s: Seq<Option<Piece>>, row: int, col: int, pending: int)
    requires
        0 <= pending <= col <= 8,
    ensures
        spec_files_covered(spec_rank_fen_from(s, row, col, pending)) == 8 - col + pending,
    decreases 8 - col,
{
    let digits = digit_if(pending);
    if pending > 0 {
        assert(digits.drop_first() =~= Seq::<u8>::empty());
        assert(spec_files_covered(Seq::<u8>::empty()) == 0);
        assert(digits[0] == ('0' as u8 + pending) as u8);
        assert(spec_file_weight(digits[0]) == pending);
        assert(spec_files_covered(digits) == pending);
    } else {
        assert(spec_files_covered(digits) == 0);
    }
    if 0 <= col < 8 {
        match s[sq(col, row)] {
            Some(p) => {
                let ch = seq![spec_piece_char(p)];
                let rest = spec_rank_fen_from(s, row, col + 1, 0);
                lemma_rank_fen_files(s, row, col + 1, 0);
                lemma_piece_char_round_trip(p);
                assert(ch.drop_first() =~= Seq::<u8>::empty());
                assert(spec_files_covered(ch) == 1);
                lemma_files_covered_concat(digits + ch, rest);
                lemma_files_covered_concat(digits, ch);
            },
            None => {
                lemma_rank_fen_files(s, row, col + 1, pending + 1);
            },
        }
    }
}

/// A board encoding is exactly 8 rank groups: it is the 8 row encodings
/// joined by `/`, holds exactly 7 separators, and each row encoding is
/// separator-free and covers exactly 8 files.
pub proof fn lemma_board_fen_structure(s: Seq<Option<Piece>>)
    ensures
        spec_count_byte(spec_board_fen(s), '/' as u8) == 7,
        forall|row: int|
            0 <= row < 8 ==> spec_files_covered(#[trigger] spec_rank_fen(s, row)) == 8,
        forall|row: int, i: int|
            0 <= row < 8 && 0 <= i < spec_rank_fen(s, row).len() ==> #[trigger] spec_rank_fen(
                s,
                row,
            )[i] != '/' as u8,
{
    lemma_ranks_fen_separators(s, 7);
    assert forall|row: int| 0 <= row < 8 implies spec_files_covered(
        #[trigger] spec_rank_fen(s, row),
    ) == 8 by {
        lemma_rank_fen_files(s, row, 0, 0);
    }
    assert forall|row: int, i: int|
        0 <= row < 8 && 0 <= i < spec_rank_fen(s, row).len() implies #[trigger] spec_rank_fen(
        s,
        row,
    )[i] != '/' as u8 by {
        lemma_rank_fen_props(s, row, 0, 0);
    }
}

/// Decoding the encoding of any full board gives the board back.
pub proof fn lemma_board_fen_round_trip(s: Seq<Option<Piece>>)
    requires
        s.len() == 64,
    ensures
        spec_board_from_fen(spec_board_fen(s)) == Some(s),
{
    let st = spec_fen_init();
    assert forall|i: int| 0 <= i < 64 && i / 8 <= 7 implies st.squares[i] is None by {}
    lemma_ranks_round_trip(s, 7, st);
    let end = Seq::new(64, |i: int| if i / 8 <= 7 { s[i] } else { st.squares[i] });
    assert forall|i: int| 0 <= i < 64 implies end[i] == s[i] by {
        lemma_sq_facts(i % 8, i / 8);
    }
    assert(end =~= s);
}

} // verus!
