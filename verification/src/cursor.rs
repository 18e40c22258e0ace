//! The message cursors: a fixed-capacity write cursor over a byte buffer and
//! a read cursor over a byte slice, with typed, bounds-checked field
//! primitives. Every operation fails fast and leaves the cursor unchanged on
//! failure.

use vstd::prelude::*;
use crate::board::{Board, Color, Piece, PieceKind, Position};
use crate::fen::{board_to_fen, spec_board_fen, spec_piece_char};

verus! {

/// Whether a game is still running or how it ended.
#[derive(Clone, Copy, Debug, PartialEq, Eq, Structural)]
pub enum GameStateType {
    Normal,
    WhiteWon,
    BlackWon,
    Draw,
}

/// The three-byte wire tag of a game state: `0-0` normal, `1-0` white won,
/// `0-1` black won, `1-1` draw.
pub open spec fn spec_state_tag(g: GameStateType) -> Seq<u8> {
    match g {
        GameStateType::Normal => seq!['0' as u8, '-' as u8, '0' as u8],
        GameStateType::WhiteWon => seq!['1' as u8, '-' as u8, '0' as u8],
        GameStateType::BlackWon => seq!['0' as u8, '-' as u8, '1' as u8],
        GameStateType::Draw => seq!['1' as u8, '-' as u8, '1' as u8],
    }
}

/// The game state a three-byte tag stands for, if it is one of the four
/// known tags.
pub open spec fn spec_state_from_tag(t: Seq<u8>) -> Option<GameStateType> {
    if t.len() != 3 || t[1] != '-' as u8 {
        None
    } else if t[0] == '0' as u8 && t[2] == '0' as u8 {
        Some(GameStateType::Normal)
    } else if t[0] == '1' as u8 && t[2] == '0' as u8 {
        Some(GameStateType::WhiteWon)
    } else if t[0] == '0' as u8 && t[2] == '1' as u8 {
        Some(GameStateType::BlackWon)
    } else if t[0] == '1' as u8 && t[2] == '1' as u8 {
        Some(GameStateType::Draw)
    } else {
        None
    }
}

/// Reading back the tag written for a game state gives the state again.
pub proof fn lemma_state_tag_round_trip(g: GameStateType)
    ensures
        spec_state_from_tag(spec_state_tag(g)) == Some(g),
{
}

/// The one-byte encoding of an optional promotion piece: the lowercase piece
/// letter, or `0` for none.
pub open spec fn spec_promo_byte(p: Option<PieceKind>) -> u8 {
    match p {
        None => '0' as u8,
        Some(kind) => spec_piece_char(Piece { kind, color: Color::Black }),
    }
}

/// The optional promotion piece a byte stands for: a piece letter of either
/// case, or `0` for none; any other byte stands for nothing.
pub open spec fn spec_promo_from_byte(b: u8) -> Option<Option<PieceKind>> {
    if b == '0' as u8 {
        Some(None)
    } else if b == 'p' as u8 || b == 'P' as u8 {
        Some(Some(PieceKind::Pawn))
    } else if b == 'n' as u8 || b == 'N' as u8 {
        Some(Some(PieceKind::Knight))
    } else if b == 'b' as u8 || b == 'B' as u8 {
        Some(Some(PieceKind::Bishop))
    } else if b == 'r' as u8 || b == 'R' as u8 {
        Some(Some(PieceKind::Rook))
    } else if b == 'q' as u8 || b == 'Q' as u8 {
        Some(Some(PieceKind::Queen))
    } else if b == 'k' as u8 || b == 'K' as u8 {
        Some(Some(PieceKind::King))
    } else {
        None
    }
}

/// Reading back the byte written for an optional promotion piece gives it
/// again.
pub proof fn lemma_promo_byte_round_trip(p: Option<PieceKind>)
    ensures
        spec_promo_from_byte(spec_promo_byte(p)) == Some(p),
{
}

/// The two-byte encoding of a square: its file as `A`-`H`, its rank as
/// `1`-`8`.
pub open spec fn spec_pos_bytes(p: Position) -> Seq<u8> {
    seq![('A' as u8 + p.col) as u8, ('1' as u8 + p.row) as u8]
}

/// Whether a file byte and a rank byte stand for a square.
pub open spec fn spec_pos_bytes_valid(file: u8, rank: u8) -> bool {
    'A' as u8 <= file <= 'H' as u8 && '1' as u8 <= rank <= '8' as u8
}

/// The square a valid file byte and rank byte stand for.
pub open spec fn spec_pos_from_bytes(file: u8, rank: u8) -> Position {
    Position { col: (file - 'A' as u8) as u8, row: (rank - '1' as u8) as u8 }
}

/// A write cursor over a fixed-capacity byte buffer of `N` bytes. Writes
/// advance the cursor; a write that would pass the end fails and changes
/// nothing.
#[derive(Clone, Debug)]
pub struct MessageBuilder<const N: usize> {
    buffer: Vec<u8>,
    index: usize,
}

impl<const N: usize> MessageBuilder<N> {
    /// The bytes written so far, together with the padding not yet written.
    pub closed spec fn spec_buffer(self) -> Seq<u8> {
        self.buffer@
    }

    /// The position the next write goes to.
    pub closed spec fn spec_index(self) -> int {
        self.index as int
    }

    /// The buffer holds exactly `N` bytes and the cursor lies within it.
    pub open spec fn wf(self) -> bool {
        self.spec_buffer().len() == N && 0 <= self.spec_index() <= N
    }

    /// A builder whose buffer is filled with `padding` (0 when none is
    /// given), cursor at the start.
    pub fn new(padding: Option<u8>) -> (r: Result<MessageBuilder<N>, ()>)
        ensures
            r matches Ok(b) && b.wf() && b.spec_index() == 0 && b.spec_buffer() == Seq::new(
                N as nat,
                |i: int|
                    match padding {
                        Some(p) => p,
                        None => 0u8,
                    },
            ),
    {
        let pad: u8 = match padding {
            Some(p) => p,
            None => 0,
        };
        let b = MessageBuilder { buffer: vec![pad; N], index: 0 };
        proof {
            assert(b.spec_buffer() =~= Seq::new(
                N as nat,
                |i: int|
                    match padding {
                        Some(p) => p,
                        None => 0u8,
                    },
            ));
        }
        Ok(b)
    }

    /// Moves the cursor `steps` bytes forward without writing; fails when
    /// that would pass the end.
    pub fn skip(&mut self, steps: usize) -> (r: Result<(), ()>)
        requires
            old(self).wf(),
        ensures
            final(self).wf(),
            final(self).spec_buffer() == old(self).spec_buffer(),
            match r {
                Ok(()) => old(self).spec_index() + steps <= N && final(self).spec_index() == old(self).spec_index() + steps,
                Err(()) => old(self).spec_index() + steps > N && final(self).spec_index() == old(self).spec_index(),
            },
    {
        if steps > N - self.index {
            return Err(());
        }
        self.index = self.index + steps;
        Ok(())
    }

    /// Writes one byte at the cursor; fails when the buffer is full.
    pub fn write(&mut self, value: u8) -> (r: Result<(), ()>)
        requires
            old(self).wf(),
        ensures
            final(self).wf(),
            match r {
                Ok(()) => old(self).spec_index() < N && final(self).spec_index() == old(self).spec_index() + 1 && final(self).spec_buffer() == old(self).spec_buffer().update(
                    old(self).spec_index(),
                    value,
                ),
                Err(()) => old(self).spec_index() == N && *final(self) == *old(self),
            },
    {
        if self.index >= N {
            return Err(());
        }
        self.buffer[self.index] = value;
        self.index = self.index + 1;
        Ok(())
    }

    /// Writes a whole slice at the cursor; fails, writing nothing, when it
    /// would not fit.
    pub fn write_slice(&mut self, section: &[u8]) -> (r: Result<(), ()>)
        requires
            old(self).wf(),
        ensures
            final(self).wf(),
            match r {
                Ok(()) => {
                    &&& old(self).spec_index() + section@.len() <= N
                    &&& final(self).spec_index() == old(self).spec_index() + section@.len()
                    &&& final(self).spec_buffer().len() == N
                    &&& forall|k: int|
                        old(self).spec_index() <= k < old(self).spec_index() + section@.len()
                            ==> final(self).spec_buffer()[k] == section@[k - old(self).spec_index()]
                    &&& forall|k: int|
                        0 <= k < N && !(old(self).spec_index() <= k < old(self).spec_index()
                            + section@.len()) ==> final(self).spec_buffer()[k] == old(self).spec_buffer()[k]
                },
                Err(()) => old(self).spec_index() + section@.len() > N && *final(self) == *old(self),
            },
    {
        let len = section.len();
        if len > N - self.index {
            return Err(());
        }
        let mut j: usize = 0;
        while j < len
            invariant
                j <= len,
                len == section@.len(),
                self.index == old(self).index,
                old(self).wf(),
                self.buffer@.len() == N,
                self.index + len <= N,
                forall|k: int|
                    0 <= k < j ==> self.buffer@[self.index + k] == section@[k],
                forall|k: int|
                    0 <= k < N && !(self.index <= k < self.index + j) ==> self.buffer@[k] == old(self).buffer@[k],
            decreases len - j,
        {
            self.buffer[self.index + j] = section[j];
            j += 1;
        }
        self.index = self.index + len;
        Ok(())
    }

    /// Writes a square as its two-byte encoding; fails, writing nothing,
    /// when it would not fit.
    pub fn write_pos(&mut self, pos: Position) -> (r: Result<(), ()>)
        requires
            old(self).wf(),
            pos.wf(),
        ensures
            final(self).wf(),
            match r {
                Ok(()) => {
                    &&& old(self).spec_index() + 2 <= N
                    &&& final(self).spec_index() == old(self).spec_index() + 2
                    &&& final(self).spec_buffer().len() == N
                    &&& forall|k: int|
                        old(self).spec_index() <= k < old(self).spec_index() + 2 ==> final(self).spec_buffer()[k] == spec_pos_bytes(pos)[k - old(self).spec_index()]
                    &&& forall|k: int|
                        0 <= k < N && !(old(self).spec_index() <= k < old(self).spec_index() + 2)
                            ==> final(self).spec_buffer()[k] == old(self).spec_buffer()[k]
                },
                Err(()) => old(self).spec_index() + 2 > N && *final(self) == *old(self),
            },
    {
        if 2 > N - self.index {
            return Err(());
        }
        let file: u8 = 'A' as u8 + pos.col;
        let rank: u8 = '1' as u8 + pos.row;
        let r1 = self.write(file);
        let r2 = self.write(rank);
        proof {
            assert(r1 is Ok && r2 is Ok);
        }
        Ok(())
    }

    /// Writes an optional promotion piece as one byte: its lowercase letter,
    /// or `0` for none; fails, writing nothing, when the buffer is full.
    pub fn write_promotion_type(&mut self, promotion_type: Option<PieceKind>) -> (r: Result<
        (),
        (),
    >)
        requires
            old(self).wf(),
        ensures
            final(self).wf(),
            match r {
                Ok(()) => old(self).spec_index() < N && final(self).spec_index() == old(self).spec_index() + 1 && final(self).spec_buffer() == old(self).spec_buffer().update(
                    old(self).spec_index(),
                    spec_promo_byte(promotion_type),
                ),
                Err(()) => old(self).spec_index() == N && *final(self) == *old(self),
            },
    {
        let byte: u8 = match promotion_type {
            None => '0' as u8,
            Some(PieceKind::Pawn) => 'p' as u8,
            Some(PieceKind::Knight) => 'n' as u8,
            Some(PieceKind::Bishop) => 'b' as u8,
            Some(PieceKind::Rook) => 'r' as u8,
            Some(PieceKind::Queen) => 'q' as u8,
            Some(PieceKind::King) => 'k' as u8,
        };
        self.write(byte)
    }

    /// Writes a game state as its three-byte tag; fails, writing nothing,
    /// when it would not fit.
    pub fn write_game_state(&mut self, game_state: GameStateType) -> (r: Result<(), ()>)
        requires
            old(self).wf(),
        ensures
            final(self).wf(),
            match r {
                Ok(()) => {
                    &&& old(self).spec_index() + 3 <= N
                    &&& final(self).spec_index() == old(self).spec_index() + 3
                    &&& final(self).spec_buffer().len() == N
                    &&& forall|k: int|
                        old(self).spec_index() <= k < old(self).spec_index() + 3 ==> final(self).spec_buffer()[k] == spec_state_tag(game_state)[k - old(self).spec_index()]
                    &&& forall|k: int|
                        0 <= k < N && !(old(self).spec_index() <= k < old(self).spec_index() + 3)
                            ==> final(self).spec_buffer()[k] == old(self).spec_buffer()[k]
                },
                Err(()) => old(self).spec_index() + 3 > N && *final(self) == *old(self),
            },
    {
        if 3 > N - self.index {
            return Err(());
        }
        let (a, c): (u8, u8) = match game_state {
            GameStateType::Normal => ('0' as u8, '0' as u8),
            GameStateType::WhiteWon => ('1' as u8, '0' as u8),
            GameStateType::BlackWon => ('0' as u8, '1' as u8),
            GameStateType::Draw => ('1' as u8, '1' as u8),
        };
        let r1 = self.write(a);
        let r2 = self.write('-' as u8);
        let r3 = self.write(c);
        proof {
            assert(r1 is Ok && r2 is Ok && r3 is Ok);
        }
        Ok(())
    }

    /// Writes a board as its run-length text encoding; fails, writing
    /// nothing, when it would not fit.
    pub fn write_board(&mut self, board: &Board) -> (r: Result<(), ()>)
        requires
            old(self).wf(),
            board.wf(),
        ensures
            final(self).wf(),
            match r {
                Ok(()) => {
                    &&& old(self).spec_index() + spec_board_fen(board@).len() <= N
                    &&& final(self).spec_index() == old(self).spec_index() + spec_board_fen(
                        board@,
                    ).len()
                    &&& final(self).spec_buffer().len() == N
                    &&& forall|k: int|
                        old(self).spec_index() <= k < old(self).spec_index() + spec_board_fen(
                            board@,
                        ).len() ==> final(self).spec_buffer()[k] == spec_board_fen(board@)[k - old(self).spec_index()]
                    &&& forall|k: int|
                        0 <= k < N && !(old(self).spec_index() <= k < old(self).spec_index()
                            + spec_board_fen(board@).len()) ==> final(self).spec_buffer()[k] == old(self).spec_buffer()[k]
                },
                Err(()) => old(self).spec_index() + spec_board_fen(board@).len() > N && *final(self)
                    == *old(self),
            },
    {
        let fen = board_to_fen(board);
        self.write_slice(fen.as_slice())
    }

    /// Yields the completed fixed-size buffer; bytes never written keep the
    /// padding value.
    pub fn build(self) -> (r: Vec<u8>)
        requires
            self.wf(),
        ensures
            r@ == self.spec_buffer(),
            r@.len() == N,
    {
        self.buffer
    }
}

/// The index of the first occurrence of `byte` in `s`, if any.
pub open spec fn spec_find(s: Seq<u8>, byte: u8) -> Option<int>
    decreases s.len(),
{
    if s.len() == 0 {
        None
    } else if s[0] == byte {
        Some(0)
    } else {
        match spec_find(s.drop_first(), byte) {
            Some(i) => Some(i + 1),
            None => None,
        }
    }
}

/// What [`spec_find`] means: the found index holds the byte and nothing
/// before it does; when nothing is found, no position holds it.
pub proof fn lemma_find_props(s: Seq<u8>, byte: u8)
    ensures
        spec_find(s, byte) matches Some(i) ==> 0 <= i < s.len() && s[i] == byte && forall|j: int|
            0 <= j < i ==> s[j] != byte,
        spec_find(s, byte) is None ==> forall|j: int| 0 <= j < s.len() ==> s[j] != byte,
    decreases s.len(),
{
    if s.len() > 0 && s[0] != byte {
        let t = s.drop_first();
        lemma_find_props(t, byte);
        assert(forall|j: int| 0 <= j < t.len() ==> t[j] == s[j + 1]);
        match spec_find(t, byte) {
            Some(i) => {
                assert(spec_find(s, byte) == Some(i + 1));
                assert(s[i + 1] == t[i]);
                assert(forall|j: int| 1 <= j < i + 1 ==> s[j] == t[j - 1]);
            },
            None => {
                assert(forall|j: int| 1 <= j < s.len() ==> s[j] == t[j - 1]);
            },
        }
    }
}

/// A prefix free of `byte` does not change where `byte` is first found.
pub proof fn lemma_find_from_prefix(s: Seq<u8>, byte: u8, i: int)
    requires
        0 <= i < s.len(),
        s[i] == byte,
        forall|j: int| 0 <= j < i ==> s[j] != byte,
    ensures
        spec_find(s, byte) == Some(i),
    decreases i,
{
    if i > 0 {
        lemma_find_from_prefix(s.drop_first(), byte, i - 1);
    }
}

/// A read cursor over a borrowed byte slice. Reads advance the cursor; a
/// read that fails, for want of bytes or on unexpected content, leaves the
/// cursor unchanged.
#[derive(Clone, Debug)]
pub struct MessageReader<'a> {
    buffer: &'a [u8],
}

impl<'a> View for MessageReader<'a> {
    type V = Seq<u8>;

    closed spec fn view(&self) -> Seq<u8> {
        self.buffer@
    }
}

impl<'a> MessageReader<'a> {
    /// A reader over the whole of `buffer`.
    pub fn new(buffer: &'a [u8]) -> (r: MessageReader<'a>)
        ensures
            r@ == buffer@,
    {
        MessageReader { buffer }
    }

    /// Discards `len` bytes; fails, discarding nothing, when fewer remain.
    pub fn skip(&mut self, len: usize) -> (r: Result<(), ()>)
        ensures
            match r {
                Ok(()) => len <= old(self)@.len() && final(self)@ == old(self)@.skip(len as int),
                Err(()) => len > old(self)@.len() && final(self)@ == old(self)@,
            },
    {
        if self.buffer.len() < len {
            return Err(());
        }
        self.buffer = vstd::slice::slice_subrange(self.buffer, len, self.buffer.len());
        Ok(())
    }

    /// Reads one byte; fails when none remains.
    pub fn read(&mut self) -> (r: Result<u8, ()>)
        ensures
            match r {
                Ok(v) => old(self)@.len() >= 1 && v == old(self)@[0] && final(self)@ == old(self)@.skip(1),
                Err(()) => old(self)@.len() == 0 && final(self)@ == old(self)@,
            },
    {
        if self.buffer.len() < 1 {
            return Err(());
        }
        let value = self.buffer[0];
        self.buffer = vstd::slice::slice_subrange(self.buffer, 1, self.buffer.len());
        Ok(value)
    }

    /// Reads one byte and checks it is `value`; fails, consuming nothing,
    /// when none remains or the byte differs.
    pub fn check_and_skip(&mut self, value: u8) -> (r: Result<(), ()>)
        ensures
            match r {
                Ok(()) => old(self)@.len() >= 1 && old(self)@[0] == value && final(self)@ == old(self)@.skip(1),
                Err(()) => (old(self)@.len() == 0 || old(self)@[0] != value) && final(self)@ == old(self)@,
            },
    {
        if self.buffer.len() < 1 {
            return Err(());
        }
        if self.buffer[0] != value {
            return Err(());
        }
        self.buffer = vstd::slice::slice_subrange(self.buffer, 1, self.buffer.len());
        Ok(())
    }

    /// Checks that every remaining byte is `value`, consuming nothing.
    pub fn check_rest(&mut self, value: u8) -> (r: Result<(), ()>)
        ensures
            final(self)@ == old(self)@,
            match r {
                Ok(()) => forall|j: int| 0 <= j < old(self)@.len() ==> old(self)@[j] == value,
                Err(()) => exists|j: int| 0 <= j < old(self)@.len() && old(self)@[j] != value,
            },
    {
        let n = self.buffer.len();
        let mut i: usize = 0;
        while i < n
            invariant
                i <= n,
                n == self@.len(),
                self@ == old(self)@,
                forall|j: int| 0 <= j < i ==> self@[j] == value,
            decreases n - i,
        {
            if self.buffer[i] != value {
                return Err(());
            }
            i += 1;
        }
        Ok(())
    }

    /// Reads `len` bytes as a slice; fails, consuming nothing, when fewer
    /// remain.
    pub fn read_slice(&mut self, len: usize) -> (r: Result<&'a [u8], ()>)
        ensures
            match r {
                Ok(s) => len <= old(self)@.len() && s@ == old(self)@.take(len as int) && final(self)@ == old(self)@.skip(len as int),
                Err(()) => len > old(self)@.len() && final(self)@ == old(self)@,
            },
    {
        if self.buffer.len() < len {
            return Err(());
        }
        let before = vstd::slice::slice_subrange(self.buffer, 0, len);
        self.buffer = vstd::slice::slice_subrange(self.buffer, len, self.buffer.len());
        Ok(before)
    }

    /// Reads the bytes before the first occurrence of `byte`, leaving that
    /// occurrence unread; fails, consuming nothing, when `byte` does not
    /// occur.
    pub fn read_up_to(&mut self, byte: u8) -> (r: Result<&'a [u8], ()>)
        ensures
            match r {
                Ok(s) => spec_find(old(self)@, byte) == Some(s@.len() as int) && s@ == old(self)@.take(s@.len() as int) && final(self)@ == old(self)@.skip(s@.len() as int),
                Err(()) => spec_find(old(self)@, byte) is None && final(self)@ == old(self)@,
            },
    {
        let n = self.buffer.len();
        let mut i: usize = 0;
        while i < n
            invariant
                i <= n,
                n == self@.len(),
                self@ == old(self)@,
                forall|j: int| 0 <= j < i ==> self@[j] != byte,
            decreases n - i,
        {
            if self.buffer[i] == byte {
                proof {
                    lemma_find_from_prefix(self@, byte, i as int);
                }
                return self.read_slice(i);
            }
            i += 1;
        }
        proof {
            lemma_find_props(self@, byte);
            assert(spec_find(self@, byte) is None);
        }
        Err(())
    }

    /// Reads a square from its two-byte encoding; fails, consuming nothing,
    /// when fewer than 2 bytes remain or either byte is out of range.
    pub fn read_pos(&mut self) -> (r: Result<Position, ()>)
        ensures
            match r {
                Ok(p) => {
                    &&& old(self)@.len() >= 2
                    &&& spec_pos_bytes_valid(old(self)@[0], old(self)@[1])
                    &&& p == spec_pos_from_bytes(old(self)@[0], old(self)@[1])
                    &&& p.wf()
                    &&& final(self)@ == old(self)@.skip(2)
                },
                Err(()) => (old(self)@.len() < 2 || !spec_pos_bytes_valid(
                    old(self)@[0],
                    old(self)@[1],
                )) && final(self)@ == old(self)@,
            },
    {
        if self.buffer.len() < 2 {
            return Err(());
        }
        let file = self.buffer[0];
        let rank = self.buffer[1];
        if !(('A' as u8) <= file && file <= ('H' as u8)) {
            return Err(());
        }
        if !(('1' as u8) <= rank && rank <= ('8' as u8)) {
            return Err(());
        }
        self.buffer = vstd::slice::slice_subrange(self.buffer, 2, self.buffer.len());
        Ok(Position { col: file - ('A' as u8), row: rank - ('1' as u8) })
    }

    /// Reads an optional promotion piece from one byte, accepting either
    /// case; fails, consuming nothing, when no byte remains or the byte
    /// stands for none.
    pub fn read_promotion_type(&mut self) -> (r: Result<Option<PieceKind>, ()>)
        ensures
            match r {
                Ok(p) => old(self)@.len() >= 1 && spec_promo_from_byte(old(self)@[0]) == Some(p)
                    && final(self)@ == old(self)@.skip(1),
                Err(()) => (old(self)@.len() == 0 || spec_promo_from_byte(old(self)@[0]) is None)
                    && final(self)@ == old(self)@,
            },
    {
        if self.buffer.len() < 1 {
            return Err(());
        }
        let byte = self.buffer[0];
        let p: Option<PieceKind> = if byte == ('0' as u8) {
            None
        } else if byte == ('p' as u8) || byte == ('P' as u8) {
            Some(PieceKind::Pawn)
        } else if byte == ('n' as u8) || byte == ('N' as u8) {
            Some(PieceKind::Knight)
        } else if byte == ('b' as u8) || byte == ('B' as u8) {
            Some(PieceKind::Bishop)
        } else if byte == ('r' as u8) || byte == ('R' as u8) {
            Some(PieceKind::Rook)
        } else if byte == ('q' as u8) || byte == ('Q' as u8) {
            Some(PieceKind::Queen)
        } else if byte == ('k' as u8) || byte == ('K' as u8) {
            Some(PieceKind::King)
        } else {
            return Err(());
        };
        self.buffer = vstd::slice::slice_subrange(self.buffer, 1, self.buffer.len());
        Ok(p)
    }

    /// Reads a game state from its three-byte tag; fails, consuming nothing,
    /// when fewer than 3 bytes remain or they are no known tag.
    pub fn read_game_state(&mut self) -> (r: Result<GameStateType, ()>)
        ensures
            match r {
                Ok(g) => old(self)@.len() >= 3 && spec_state_from_tag(old(self)@.take(3)) == Some(
                    g,
                ) && final(self)@ == old(self)@.skip(3),
                Err(()) => (old(self)@.len() < 3 || spec_state_from_tag(old(self)@.take(3)) is None)
                    && final(self)@ == old(self)@,
            },
    {
        if self.buffer.len() < 3 {
            return Err(());
        }
        let a = self.buffer[0];
        let b = self.buffer[1];
        let c = self.buffer[2];
        if b != ('-' as u8) {
            return Err(());
        }
        let g: GameStateType = if a == ('0' as u8) && c == ('0' as u8) {
            GameStateType::Normal
        } else if a == ('1' as u8) && c == ('0' as u8) {
            GameStateType::WhiteWon
        } else if a == ('0' as u8) && c == ('1' as u8) {
            GameStateType::BlackWon
        } else if a == ('1' as u8) && c == ('1' as u8) {
            GameStateType::Draw
        } else {
            return Err(());
        };
        self.buffer = vstd::slice::slice_subrange(self.buffer, 3, self.buffer.len());
        Ok(g)
    }

    /// Reads a board: the bytes before the next `:` decoded by the board
    /// codec, leaving the `:` unread. Fails, consuming nothing, when no `:`
    /// follows or those bytes are no valid board.
    pub fn read_board_argument(&mut self) -> (r: Result<Board, ()>)
        ensures
            match r {
                Ok(b) => {
                    &&& spec_find(old(self)@, ':' as u8) matches Some(i)
                        && crate::fen::spec_board_from_fen(old(self)@.take(i)) == Some(b@)
                        && final(self)@ == old(self)@.skip(i)
                    &&& b.wf()
                },
                Err(()) => (spec_find(old(self)@, ':' as u8) is None || (spec_find(
                    old(self)@,
                    ':' as u8,
                ) matches Some(i) && crate::fen::spec_board_from_fen(old(self)@.take(i)) is None))
                    && final(self)@ == old(self)@,
            },
    {
        let saved = self.buffer;
        let fen = match self.read_up_to(':' as u8) {
            Ok(fen) => fen,
            Err(()) => {
                return Err(());
            },
        };
        match crate::fen::board_from_fen(fen) {
            Some(board) => Ok(board),
            None => {
                self.buffer = saved;
                Err(())
            },
        }
    }
}

} // verus!
