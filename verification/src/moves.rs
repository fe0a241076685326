//! Moves and the movement rules of each piece kind.
//!
//! `spec_is_valid` is the mathematical statement of the movement rules; the
//! executable checks are proved equal to it. Castling is not expressed here:
//! the board handles a two-file king move separately.

use vstd::prelude::*;
use crate::position::{Position, pos_valid};
use crate::piece::{Piece, PieceType, Color};
use crate::board::{Board, BoardModel, spec_at};

verus! {

#[derive(Debug, Clone, Copy, PartialEq, Eq, Structural)]
pub enum MoveType {
    Normal,
    Capture,
    EnPassant,
    Castle,
}

#[derive(Debug, Clone, Copy)]
pub struct Move {
    pub from: Position,
    pub to: Position,
    pub move_type: MoveType,
    pub promotion: Option<PieceType>,
}

impl PartialEq for Move {
    fn eq(&self, other: &Self) -> (r: bool)
    {
        let promo_eq = match (self.promotion, other.promotion) {
            (None, None) => true,
            (Some(a), Some(b)) => a == b,
            _ => false,
        };
        self.from == other.from && self.to == other.to && self.move_type == other.move_type
            && promo_eq
    }
}

impl vstd::std_specs::cmp::PartialEqSpecImpl for Move {
    open spec fn obeys_eq_spec() -> bool {
        true
    }

    open spec fn eq_spec(&self, other: &Move) -> bool {
        *self == *other
    }
}

impl Move {
    /// A plain move between two squares.
    pub fn new(from: Position, to: Position) -> (r: Move)
        ensures
            r == (Move { from, to, promotion: None::<PieceType>, move_type: MoveType::Normal }),
    {
        Move { from, to, promotion: None, move_type: MoveType::Normal }
    }

    /// A pawn move that promotes on arrival.
    pub fn with_promotion(from: Position, to: Position, promotion: PieceType) -> (r: Move)
        ensures
            r == (Move { from, to, promotion: Some(promotion), move_type: MoveType::Normal }),
    {
        Move { from, to, promotion: Some(promotion), move_type: MoveType::Normal }
    }

    /// A castling move, written as the king's two-file step.
    pub fn castle(from: Position, to: Position) -> (r: Move)
        ensures
            r == (Move { from, to, promotion: None::<PieceType>, move_type: MoveType::Castle }),
    {
        Move { from, to, promotion: None, move_type: MoveType::Castle }
    }
}

/// Integer absolute value, for coordinate differences.
pub open spec fn sabs(x: int) -> int {
    if x < 0 {
        -x
    } else {
        x
    }
}

/// Sign of an integer: -1, 0 or 1.
pub open spec fn ssign(x: int) -> int {
    if x < 0 {
        -1
    } else if x > 0 {
        1
    } else {
        0
    }
}

/// The squares strictly between `m.from` and `m.to` (walking one step at a
/// time in each coordinate's direction) are all empty. Only meaningful for
/// aligned moves, where the walk passes through every intermediate square.
pub open spec fn spec_path_clear(b: BoardModel, m: Move) -> bool {
    let fd = m.to.file - m.from.file;
    let rd = m.to.rank - m.from.rank;
    let n = if sabs(fd) > sabs(rd) {
        sabs(fd)
    } else {
        sabs(rd)
    };
    forall|k: int|
        1 <= k < n ==> (#[trigger] spec_at(
            b,
            m.from.file + k * ssign(fd),
            m.from.rank + k * ssign(rd),
        )) is None
}

/// The pawn rule: one step forward to an empty square; two from its home
/// rank across an empty square; a diagonal step onto an enemy piece; or an
/// en-passant capture of a pawn that has just advanced two squares.
pub open spec fn spec_pawn_ok(b: BoardModel, m: Move, color: Color) -> bool {
    let dir: int = if color == Color::White {
        1
    } else {
        -1
    };
    let fd = m.to.file - m.from.file;
    let rd = m.to.rank - m.from.rank;
    let home = if color == Color::White {
        m.from.rank == 2
    } else {
        m.from.rank == 7
    };
    ||| (fd == 0 && rd == dir && spec_at(b, m.to.file as int, m.to.rank as int) is None)
    ||| (fd == 0 && home && rd == 2 * dir && spec_at(
        b,
        m.from.file as int,
        m.from.rank + dir,
    ) is None && spec_at(b, m.to.file as int, m.to.rank as int) is None)
    ||| (sabs(fd) == 1 && rd == dir && match spec_at(b, m.to.file as int, m.to.rank as int) {
        Some(captured) => captured.color != color,
        None => spec_en_passant_ok(b, m, color),
    })
}

/// The en-passant clause of the pawn rule, read off the board's last move.
pub open spec fn spec_en_passant_ok(b: BoardModel, m: Move, color: Color) -> bool {
    match b.last_move {
        Some(lm) => {
            &&& lm.from.file == m.to.file
            &&& match spec_at(b, lm.to.file as int, lm.to.rank as int) {
                Some(lp) => lp.piece_type == PieceType::Pawn,
                None => false,
            }
            &&& sabs(lm.to.rank - lm.from.rank) == 2
            &&& m.from.rank == (if color == Color::White {
                5int
            } else {
                4int
            })
        },
        None => false,
    }
}

/// The movement rule of `piece`, ignoring turn order and king safety.
pub open spec fn spec_movement_ok(b: BoardModel, m: Move, piece: Piece) -> bool {
    let fd = m.to.file - m.from.file;
    let rd = m.to.rank - m.from.rank;
    match piece.piece_type {
        PieceType::Pawn => spec_pawn_ok(b, m, piece.color),
        PieceType::Knight => (sabs(rd) == 2 && sabs(fd) == 1) || (sabs(rd) == 1 && sabs(fd) == 2),
        PieceType::Bishop => sabs(rd) == sabs(fd) && spec_path_clear(b, m),
        PieceType::Rook => !(rd != 0 && fd != 0) && spec_path_clear(b, m),
        PieceType::Queen => (sabs(rd) == sabs(fd) && spec_path_clear(b, m)) || (!(rd != 0 && fd
            != 0) && spec_path_clear(b, m)),
        PieceType::King => sabs(rd) <= 1 && sabs(fd) <= 1,
    }
}

/// A move obeys the piece's movement pattern: a piece stands on `from`, both
/// squares are on the board, the destination holds no friendly piece, and the
/// geometry fits the piece kind. Turn order and king safety are judged by the
/// board when the move is made.
pub open spec fn spec_is_valid(b: BoardModel, m: Move) -> bool {
    match spec_at(b, m.from.file as int, m.from.rank as int) {
        None => false,
        Some(piece) => {
            &&& pos_valid(m.from)
            &&& pos_valid(m.to)
            &&& match spec_at(b, m.to.file as int, m.to.rank as int) {
                Some(dest) => dest.color != piece.color,
                None => true,
            }
            &&& spec_movement_ok(b, m, piece)
        },
    }
}

impl Move {
    /// Checks the movement rules against the board.
    pub fn is_valid(&self, board: &Board) -> (r: bool)
        requires
            board@.wf(),
        ensures
            r == spec_is_valid(board@, *self),
    {
        let piece = match board.get_piece(self.from) {
            Some(p) => p,
            None => {
                return false;
            },
        };
        if !board.is_position_valid(self.from) || !board.is_position_valid(self.to) {
            return false;
        }
        if let Some(dest_piece) = board.get_piece(self.to) {
            if dest_piece.color == piece.color {
                return false;
            }
        }
        self.is_valid_piece_movement(piece, board)
    }

    fn is_valid_piece_movement(&self, piece: Piece, board: &Board) -> (r: bool)
        requires
            board@.wf(),
            pos_valid(self.from),
            pos_valid(self.to),
            spec_at(board@, self.from.file as int, self.from.rank as int) == Some(piece),
            match spec_at(board@, self.to.file as int, self.to.rank as int) {
                Some(dest) => dest.color != piece.color,
                None => true,
            },
        ensures
            r == spec_movement_ok(board@, *self, piece),
    {
        match piece.piece_type {
            PieceType::Pawn => self.is_valid_pawn_move(piece.color, board),
            PieceType::Knight => self.is_valid_knight_move(),
            PieceType::Bishop => self.is_valid_diagonal_move(board),
            PieceType::Rook => self.is_valid_straight_move(board),
            PieceType::Queen => self.is_valid_diagonal_move(board) || self.is_valid_straight_move(
                board,
            ),
            PieceType::King => self.is_valid_king_move(),
        }
    }

    fn is_valid_pawn_move(&self, color: Color, board: &Board) -> (r: bool)
        requires
            board@.wf(),
            pos_valid(self.from),
            pos_valid(self.to),
        ensures
            r == spec_pawn_ok(board@, *self, color),
    {
        let direction: i32 = if color == Color::White {
            1
        } else {
            -1
        };
        let rank_diff = (self.to.rank as i32) - (self.from.rank as i32);
        let file_diff = (self.to.file as i32) - (self.from.file as i32);

        if file_diff == 0 {
            if rank_diff == direction {
                return board.get_piece(self.to).is_none();
            }
            if (color == Color::White && self.from.rank == 2) || (color == Color::Black
                && self.from.rank == 7) {
                if rank_diff == 2 * direction {
                    let mid_rank: u8 = if color == Color::White {
                        self.from.rank + 1
                    } else {
                        self.from.rank - 1
                    };
                    let intermediate = Position { file: self.from.file, rank: mid_rank };
                    return board.get_piece(intermediate).is_none() && board.get_piece(
                        self.to,
                    ).is_none();
                }
            }
            return false;
        }
        let file_abs = if file_diff < 0 {
            -file_diff
        } else {
            file_diff
        };
        if file_abs == 1 && rank_diff == direction {
            if let Some(captured) = board.get_piece(self.to) {
                return captured.color != color;
            }
            if let Some(last_move) = board.last_move() {
                if last_move.from.file == self.to.file {
                    if let Some(last_piece) = board.get_piece(last_move.to) {
                        if last_piece.piece_type == PieceType::Pawn {
                            let last_rank_diff = (last_move.to.rank as i32) - (
                            last_move.from.rank as i32);
                            let last_rank_abs = if last_rank_diff < 0 {
                                -last_rank_diff
                            } else {
                                last_rank_diff
                            };
                            if last_rank_abs == 2 {
                                let expected_rank: u8 = if color == Color::White {
                                    5
                                } else {
                                    4
                                };
                                if self.from.rank == expected_rank {
                                    return true;
                                }
                            }
                        }
                    }
                }
            }
        }
        false
    }

    pub fn is_valid_knight_move(&self) -> (r: bool)
        ensures
            r == ((sabs(self.to.rank - self.from.rank) == 2 && sabs(
                self.to.file - self.from.file,
            ) == 1) || (sabs(self.to.rank - self.from.rank) == 1 && sabs(
                self.to.file - self.from.file,
            ) == 2)),
    {
        let rank_diff = (self.to.rank as i32) - (self.from.rank as i32);
        let file_diff = (self.to.file as i32) - (self.from.file as i32);
        let rank_abs = if rank_diff < 0 {
            -rank_diff
        } else {
            rank_diff
        };
        let file_abs = if file_diff < 0 {
            -file_diff
        } else {
            file_diff
        };
        (rank_abs == 2 && file_abs == 1) || (rank_abs == 1 && file_abs == 2)
    }

    fn is_valid_diagonal_move(&self, board: &Board) -> (r: bool)
        requires
            board@.wf(),
            pos_valid(self.from),
            pos_valid(self.to),
            self.from != self.to,
        ensures
            r == (sabs(self.to.rank - self.from.rank) == sabs(self.to.file - self.from.file)
                && spec_path_clear(board@, *self)),
    {
        let rank_diff = (self.to.rank as i32) - (self.from.rank as i32);
        let file_diff = (self.to.file as i32) - (self.from.file as i32);
        let rank_abs = if rank_diff < 0 {
            -rank_diff
        } else {
            rank_diff
        };
        let file_abs = if file_diff < 0 {
            -file_diff
        } else {
            file_diff
        };
        if rank_abs != file_abs {
            return false;
        }
        self.is_path_clear(board)
    }

    fn is_valid_straight_move(&self, board: &Board) -> (r: bool)
        requires
            board@.wf(),
            pos_valid(self.from),
            pos_valid(self.to),
            self.from != self.to,
        ensures
            r == (!(self.to.rank != self.from.rank && self.to.file != self.from.file)
                && spec_path_clear(board@, *self)),
    {
        let rank_diff = (self.to.rank as i32) - (self.from.rank as i32);
        let file_diff = (self.to.file as i32) - (self.from.file as i32);
        if rank_diff != 0 && file_diff != 0 {
            return false;
        }
        self.is_path_clear(board)
    }

    pub fn is_valid_king_move(&self) -> (r: bool)
        ensures
            r == (sabs(self.to.rank - self.from.rank) <= 1 && sabs(self.to.file - self.from.file)
                <= 1),
    {
        let rank_diff = (self.to.rank as i32) - (self.from.rank as i32);
        let file_diff = (self.to.file as i32) - (self.from.file as i32);
        let rank_abs = if rank_diff < 0 {
            -rank_diff
        } else {
            rank_diff
        };
        let file_abs = if file_diff < 0 {
            -file_diff
        } else {
            file_diff
        };
        rank_abs <= 1 && file_abs <= 1
    }

    /// Walks the squares strictly between `from` and `to` and reports whether
    /// all of them are empty. The move must be aligned on a rank, file or
    /// diagonal so that the walk passes through every intermediate square.
    fn is_path_clear(&self, board: &Board) -> (r: bool)
        requires
            board@.wf(),
            pos_valid(self.from),
            pos_valid(self.to),
            self.from != self.to,
            sabs(self.to.rank - self.from.rank) == sabs(self.to.file - self.from.file)
                || self.to.rank == self.from.rank || self.to.file == self.from.file,
        ensures
            r == spec_path_clear(board@, *self),
    {
        let rank_diff = (self.to.rank as i32) - (self.from.rank as i32);
        let file_diff = (self.to.file as i32) - (self.from.file as i32);
        let rank_step: i32 = if rank_diff < 0 {
            -1
        } else if rank_diff > 0 {
            1
        } else {
            0
        };
        let file_step: i32 = if file_diff < 0 {
            -1
        } else if file_diff > 0 {
            1
        } else {
            0
        };
        let rank_abs = if rank_diff < 0 {
            -rank_diff
        } else {
            rank_diff
        };
        let file_abs = if file_diff < 0 {
            -file_diff
        } else {
            file_diff
        };
        let n = if file_abs > rank_abs {
            file_abs
        } else {
            rank_abs
        };
        let mut k: i32 = 1;
        while k < n
            invariant
                board@.wf(),
                pos_valid(self.from),
                pos_valid(self.to),
                1 <= k <= n,
                n == if sabs(self.to.file - self.from.file) > sabs(self.to.rank - self.from.rank) {
                    sabs(self.to.file - self.from.file)
                } else {
                    sabs(self.to.rank - self.from.rank)
                },
                file_step == ssign(self.to.file - self.from.file),
                rank_step == ssign(self.to.rank - self.from.rank),
                sabs(self.to.rank - self.from.rank) == sabs(self.to.file - self.from.file)
                    || self.to.rank == self.from.rank || self.to.file == self.from.file,
                forall|j: int|
                    1 <= j < k ==> (#[trigger] spec_at(
                        board@,
                        self.from.file + j * ssign(self.to.file - self.from.file),
                        self.from.rank + j * ssign(self.to.rank - self.from.rank),
                    )) is None,
            decreases n - k,
        {
            let cf = (self.from.file as i32) + k * file_step;
            let cr = (self.from.rank as i32) + k * rank_step;
            let pos = Position { file: cf as u8, rank: cr as u8 };
            proof {
                assert(1 <= cf <= 8 && 1 <= cr <= 8) by {
                    assert(sabs(self.to.file - self.from.file) <= 7);
                    assert(sabs(self.to.rank - self.from.rank) <= 7);
                };
            }
            if board.get_piece(pos).is_some() {
                return false;
            }
            k = k + 1;
        }
        true
    }
}

} // verus!
