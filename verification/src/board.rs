//! The board: piece placement, turn, castling rights and the last move made.
//!
//! Squares are held in a vector of 64 optional pieces, indexed by
//! `(rank - 1) * 8 + (file - 1)`. The mathematical view of a board is a
//! [`BoardModel`]; every contract speaks of it through `@`.

use vstd::prelude::*;
use crate::position::{Position, pos_valid};
use crate::piece::{Piece, PieceType, Color, spec_opposite};
use crate::moves::{Move, MoveType, sabs, spec_is_valid};

verus! {

#[derive(Debug, Clone, Copy, PartialEq, Eq, Structural)]
pub struct CastlingRights {
    pub white_kingside: bool,
    pub white_queenside: bool,
    pub black_kingside: bool,
    pub black_queenside: bool,
}

/// The castling rights at the start of a game.
pub open spec fn spec_initial_rights() -> CastlingRights {
    CastlingRights {
        white_kingside: true,
        white_queenside: true,
        black_kingside: true,
        black_queenside: true,
    }
}

impl Default for CastlingRights {
    /// At the start of a game every castling is still available.
    fn default() -> (r: Self)
        ensures
            r == spec_initial_rights(),
    {
        CastlingRights {
            white_kingside: true,
            white_queenside: true,
            black_kingside: true,
            black_queenside: true,
        }
    }
}

/// The mathematical value of a board: the 64 squares, whose turn it is,
/// the castling rights still available, and the move that produced the
/// position (used for en passant).
#[verifier::ext_equal]
pub ghost struct BoardModel {
    pub squares: Seq<Option<Piece>>,
    pub current_turn: Color,
    pub castling_rights: CastlingRights,
    pub last_move: Option<Move>,
}

#[derive(Debug)]
pub struct Board {
    pub squares: Vec<Option<Piece>>,
    pub current_turn: Color,
    pub castling_rights: CastlingRights,
    pub last_move: Option<Move>,
}

impl View for Board {
    type V = BoardModel;

    open spec fn view(&self) -> BoardModel {
        BoardModel {
            squares: self.squares@,
            current_turn: self.current_turn,
            castling_rights: self.castling_rights,
            last_move: self.last_move,
        }
    }
}

/// Index of a square in the board vector.
pub open spec fn sq_index(f: int, r: int) -> int {
    (r - 1) * 8 + (f - 1)
}

/// A square index determines its file and rank: distinct squares have
/// distinct indices, and every index lies below 64.
pub proof fn lemma_sq_index(f: int, r: int)
    requires
        1 <= f <= 8,
        1 <= r <= 8,
    ensures
        0 <= sq_index(f, r) < 64,
        sq_index(f, r) % 8 == f - 1,
        sq_index(f, r) / 8 == r - 1,
{
    assert(sq_index(f, r) == (r - 1) * 8 + (f - 1) && 0 <= sq_index(f, r) < 64 && sq_index(f, r) % 8
        == f - 1 && sq_index(f, r) / 8 == r - 1) by (nonlinear_arith)
        requires
            1 <= f <= 8 && 1 <= r <= 8,
    ;
}

/// Distinct on-board squares occupy distinct slots of the board vector.
pub proof fn lemma_sq_index_injective(f1: int, r1: int, f2: int, r2: int)
    requires
        1 <= f1 <= 8,
        1 <= r1 <= 8,
        1 <= f2 <= 8,
        1 <= r2 <= 8,
        f1 != f2 || r1 != r2,
    ensures
        sq_index(f1, r1) != sq_index(f2, r2),
{
    lemma_sq_index(f1, r1);
    lemma_sq_index(f2, r2);
}

/// The piece standing on file `f`, rank `r`; `None` off the board.
pub open spec fn spec_at(b: BoardModel, f: int, r: int) -> Option<Piece> {
    if 1 <= f <= 8 && 1 <= r <= 8 {
        b.squares[sq_index(f, r)]
    } else {
        None
    }
}

/// The piece that the starting position places on file `f`, rank `r`.
pub open spec fn spec_initial_at(f: int, r: int) -> Option<Piece> {
    if r == 2 {
        Some(Piece { piece_type: PieceType::Pawn, color: Color::White })
    } else if r == 7 {
        Some(Piece { piece_type: PieceType::Pawn, color: Color::Black })
    } else if r == 1 {
        Some(Piece { piece_type: spec_back_rank(f), color: Color::White })
    } else if r == 8 {
        Some(Piece { piece_type: spec_back_rank(f), color: Color::Black })
    } else {
        None
    }
}

/// Kind of the piece that starts on file `f` of a back rank.
pub open spec fn spec_back_rank(f: int) -> PieceType {
    if f == 1 || f == 8 {
        PieceType::Rook
    } else if f == 2 || f == 7 {
        PieceType::Knight
    } else if f == 3 || f == 6 {
        PieceType::Bishop
    } else if f == 4 {
        PieceType::Queen
    } else {
        PieceType::King
    }
}

impl BoardModel {
    /// The board vector holds one entry per square, and the recorded last
    /// move, if any, lies on the board.
    pub open spec fn wf(self) -> bool {
        &&& self.squares.len() == 64
        &&& match self.last_move {
            Some(m) => pos_valid(m.from) && pos_valid(m.to),
            None => true,
        }
    }
}

/// How many pieces of `color` stand on squares with index at least `i`.
pub open spec fn spec_count_color(b: BoardModel, color: Color, i: int) -> int
    decreases 64 - i,
{
    if i < 0 || i >= 64 {
        0
    } else {
        (match b.squares[i] {
            Some(p) => if p.color == color {
                1int
            } else {
                0int
            },
            None => 0int,
        }) + spec_count_color(b, color, i + 1)
    }
}

/// The first piece of `color` other than its king, scanning from `i`.
pub open spec fn spec_first_non_king(b: BoardModel, color: Color, i: int) -> Option<Piece>
    decreases 64 - i,
{
    if i < 0 || i >= 64 {
        None
    } else {
        match b.squares[i] {
            Some(p) => if p.color == color && p.piece_type != PieceType::King {
                Some(p)
            } else {
                spec_first_non_king(b, color, i + 1)
            },
            None => spec_first_non_king(b, color, i + 1),
        }
    }
}

/// Index of the first bishop of `color`, scanning from `i`.
pub open spec fn spec_first_bishop(b: BoardModel, color: Color, i: int) -> Option<int>
    decreases 64 - i,
{
    if i < 0 || i >= 64 {
        None
    } else {
        match b.squares[i] {
            Some(p) => if p.color == color && p.piece_type == PieceType::Bishop {
                Some(i)
            } else {
                spec_first_bishop(b, color, i + 1)
            },
            None => spec_first_bishop(b, color, i + 1),
        }
    }
}

/// The color of the square at index `i`: even or odd sum of file and rank.
pub open spec fn spec_square_shade(i: int) -> int {
    (i % 8 + 1 + i / 8 + 1) % 2
}

/// Neither side can force mate: bare kings, a lone minor piece against a
/// bare king, or one bishop each standing on same-shaded squares.
pub open spec fn spec_insufficient_material(b: BoardModel) -> bool {
    let nw = spec_count_color(b, Color::White, 0);
    let nb = spec_count_color(b, Color::Black, 0);
    ||| (nw == 1 && nb == 1)
    ||| ((nw == 2 && nb == 1) || (nw == 1 && nb == 2)) && (match spec_first_non_king(
        b,
        if nw > nb {
            Color::White
        } else {
            Color::Black
        },
        0,
    ) {
        Some(p) => p.piece_type == PieceType::Bishop || p.piece_type == PieceType::Knight,
        None => false,
    })
    ||| (nw == 2 && nb == 2 && match (spec_first_bishop(b, Color::White, 0), spec_first_bishop(
        b,
        Color::Black,
        0,
    )) {
        (Some(i), Some(j)) => spec_square_shade(i) == spec_square_shade(j),
        _ => false,
    })
}

/// The plain, promotion-free move from (`af`, `ar`) to (`f`, `r`): the
/// shape in which attacks and mobility are judged.
pub open spec fn spec_plain_move(af: int, ar: int, f: int, r: int) -> Move {
    Move {
        from: Position { file: af as u8, rank: ar as u8 },
        to: Position { file: f as u8, rank: r as u8 },
        move_type: MoveType::Normal,
        promotion: None,
    }
}

/// Some enemy piece has a valid move onto (`f`, `r`).
pub open spec fn spec_attacked(b: BoardModel, f: int, r: int, defending: Color) -> bool {
    exists|af: int, ar: int|
        1 <= af <= 8 && 1 <= ar <= 8 && match #[trigger] spec_at(b, af, ar) {
            Some(attacker) => attacker.color != defending && spec_is_valid(
                b,
                spec_plain_move(af, ar, f, r),
            ),
            None => false,
        }
}

/// Index of the first square, scanning from `i` upward, that holds the king
/// of `color`.
pub open spec fn spec_first_king(b: BoardModel, color: Color, i: int) -> Option<int>
    decreases 64 - i,
{
    if i < 0 || i >= 64 {
        None
    } else if b.squares[i] == Some(Piece { piece_type: PieceType::King, color }) {
        Some(i)
    } else {
        spec_first_king(b, color, i + 1)
    }
}

/// The king of `color` (the first one found, scanning the board vector) is
/// attacked; false when that side has no king at all.
pub open spec fn spec_in_check(b: BoardModel, color: Color) -> bool {
    match spec_first_king(b, color, 0) {
        None => false,
        Some(i) => spec_attacked(b, i % 8 + 1, i / 8 + 1, color),
    }
}

/// Whether the rights still allow `color` to castle on the given wing.
pub open spec fn spec_rights_allow(rights: CastlingRights, color: Color, kingside: bool) -> bool {
    if color == Color::White {
        if kingside {
            rights.white_kingside
        } else {
            rights.white_queenside
        }
    } else {
        if kingside {
            rights.black_kingside
        } else {
            rights.black_queenside
        }
    }
}

/// The home rank of `color`, where its castling takes place.
pub open spec fn spec_home_rank(color: Color) -> int {
    if color == Color::White {
        1int
    } else {
        8int
    }
}

/// The castling path: the squares between king and rook are empty, and
/// no square the king stands on, crosses or lands on is attacked, so a
/// king cannot castle out of, through or into check. On the king's wing
/// the f- and g-files must be clear and the e-, f- and g-files safe; on
/// the queen's wing the b-, c- and d-files must be clear and the c-, d-
/// and e-files safe.
pub open spec fn spec_castle_path_ok(b: BoardModel, color: Color, kingside: bool) -> bool {
    let rank = spec_home_rank(color);
    if kingside {
        &&& spec_at(b, 6, rank) is None
        &&& spec_at(b, 7, rank) is None
        &&& !spec_attacked(b, 5, rank, color)
        &&& !spec_attacked(b, 6, rank, color)
        &&& !spec_attacked(b, 7, rank, color)
    } else {
        &&& spec_at(b, 2, rank) is None
        &&& spec_at(b, 3, rank) is None
        &&& spec_at(b, 4, rank) is None
        &&& !spec_attacked(b, 3, rank, color)
        &&& !spec_attacked(b, 4, rank, color)
        &&& !spec_attacked(b, 5, rank, color)
    }
}

/// The corner the castling rook starts from.
pub open spec fn spec_rook_from(color: Color, kingside: bool) -> Position {
    Position {
        file: if kingside {
            8u8
        } else {
            1u8
        },
        rank: spec_home_rank(color) as u8,
    }
}

/// The square the castling rook lands on.
pub open spec fn spec_rook_to(color: Color, kingside: bool) -> Position {
    Position {
        file: if kingside {
            6u8
        } else {
            4u8
        },
        rank: spec_home_rank(color) as u8,
    }
}

/// The squares after the king's two-file step, before the rook moves.
pub open spec fn spec_castle_king_moved(b: BoardModel, m: Move) -> Seq<Option<Piece>> {
    let king = spec_at(b, m.from.file as int, m.from.rank as int)->0;
    b.squares.update(sq_index(m.from.file as int, m.from.rank as int), None).update(
        sq_index(m.to.file as int, m.to.rank as int),
        Some(king),
    )
}

/// Whether the castling attempt `m` is accepted: the wing's rights remain,
/// its path is clear and unattacked, the target square lies on the board,
/// and a piece stands in the rook's corner once the king has stepped.
pub open spec fn spec_castle_ok(b: BoardModel, m: Move) -> bool {
    match spec_at(b, m.from.file as int, m.from.rank as int) {
        None => false,
        Some(king) => {
            let kingside = m.to.file == 7;
            let rf = spec_rook_from(king.color, kingside);
            &&& pos_valid(m.to)
            &&& spec_rights_allow(b.castling_rights, king.color, kingside)
            &&& spec_castle_path_ok(b, king.color, kingside)
            &&& spec_castle_king_moved(b, m)[sq_index(rf.file as int, rf.rank as int)] is Some
        },
    }
}

/// The board after castling: the king steps two files, whatever stands in
/// the rook corner afterwards moves to the rook's landing square, the
/// color's castling rights are spent, the turn passes, and the castling
/// move is recorded as the last move.
pub open spec fn spec_castle_apply(b: BoardModel, m: Move) -> BoardModel {
    let king = spec_at(b, m.from.file as int, m.from.rank as int)->0;
    let kingside = m.to.file == 7;
    let rf = spec_rook_from(king.color, kingside);
    let rt = spec_rook_to(king.color, kingside);
    let s1 = spec_castle_king_moved(b, m);
    let rook = s1[sq_index(rf.file as int, rf.rank as int)]->0;
    let s2 = s1.update(sq_index(rf.file as int, rf.rank as int), None).update(
        sq_index(rt.file as int, rt.rank as int),
        Some(rook),
    );
    let rights = if king.color == Color::White {
        CastlingRights { white_kingside: false, white_queenside: false, ..b.castling_rights }
    } else {
        CastlingRights { black_kingside: false, black_queenside: false, ..b.castling_rights }
    };
    BoardModel {
        squares: s2,
        current_turn: spec_opposite(b.current_turn),
        castling_rights: rights,
        last_move: Some(m),
    }
}

/// How a move changes the castling rights: moving the king spends both of
/// its wings; moving a rook off its home corner spends that wing.
pub open spec fn spec_update_rights(rights: CastlingRights, p: Piece, m: Move) -> CastlingRights {
    match p.piece_type {
        PieceType::King => {
            if p.color == Color::White {
                CastlingRights { white_kingside: false, white_queenside: false, ..rights }
            } else {
                CastlingRights { black_kingside: false, black_queenside: false, ..rights }
            }
        },
        PieceType::Rook => {
            if p.color == Color::White && m.from.rank == 1 {
                if m.from.file == 1 {
                    CastlingRights { white_queenside: false, ..rights }
                } else if m.from.file == 8 {
                    CastlingRights { white_kingside: false, ..rights }
                } else {
                    rights
                }
            } else if p.color == Color::Black && m.from.rank == 8 {
                if m.from.file == 1 {
                    CastlingRights { black_queenside: false, ..rights }
                } else if m.from.file == 8 {
                    CastlingRights { black_kingside: false, ..rights }
                } else {
                    rights
                }
            } else {
                rights
            }
        },
        _ => rights,
    }
}

/// Whether `make_move` accepts `m` on board `b`: a piece of the side to
/// move stands on `m.from`, and either the move is a legal castling
/// attempt, or it obeys the movement rules, promotes legally, and leaves
/// the mover's king out of check.
pub open spec fn spec_make_move_ok(b: BoardModel, m: Move) -> bool {
    match spec_at(b, m.from.file as int, m.from.rank as int) {
        None => false,
        Some(p) => {
            &&& p.color == b.current_turn
            &&& if p.piece_type == PieceType::King && sabs(m.to.file - m.from.file) == 2 {
                spec_castle_ok(b, m)
            } else {
                &&& spec_is_valid(b, m)
                &&& Board::spec_promo_ok(b, m)
                &&& !spec_in_check(Board::spec_apply(b, m), p.color)
            }
        },
    }
}

/// The board `make_move` leaves behind when it accepts `m`.
pub open spec fn spec_make_move(b: BoardModel, m: Move) -> BoardModel {
    let p = spec_at(b, m.from.file as int, m.from.rank as int)->0;
    if p.piece_type == PieceType::King && sabs(m.to.file - m.from.file) == 2 {
        spec_castle_apply(b, m)
    } else {
        let a = Board::spec_apply(b, m);
        BoardModel {
            squares: a.squares,
            current_turn: a.current_turn,
            castling_rights: spec_update_rights(b.castling_rights, p, m),
            last_move: Some(m),
        }
    }
}

/// Whether some square between the castling king and rook is occupied.
pub open spec fn spec_castle_path_blocked(b: BoardModel, color: Color, kingside: bool) -> bool {
    let rank = spec_home_rank(color);
    if kingside {
        spec_at(b, 6, rank) is Some || spec_at(b, 7, rank) is Some
    } else {
        spec_at(b, 2, rank) is Some || spec_at(b, 3, rank) is Some || spec_at(b, 4, rank) is Some
    }
}

/// Whether some square the castling king stands on, crosses or lands on
/// is attacked.
pub open spec fn spec_castle_path_attacked(b: BoardModel, color: Color, kingside: bool) -> bool {
    let rank = spec_home_rank(color);
    if kingside {
        spec_attacked(b, 5, rank, color) || spec_attacked(b, 6, rank, color) || spec_attacked(
            b,
            7,
            rank,
            color,
        )
    } else {
        spec_attacked(b, 3, rank, color) || spec_attacked(b, 4, rank, color) || spec_attacked(
            b,
            5,
            rank,
            color,
        )
    }
}

/// The reason a rejected castling attempt gives, following the order the
/// checks are made in: the target square, the rights, a blocked path, an
/// attacked path, and last the rook's corner.
pub open spec fn spec_castle_error(b: BoardModel, m: Move) -> Seq<char> {
    let king = spec_at(b, m.from.file as int, m.from.rank as int)->0;
    let kingside = m.to.file == 7;
    if !pos_valid(m.to) {
        "Castling target is off the board"@
    } else if !spec_rights_allow(b.castling_rights, king.color, kingside) {
        "Castling is not allowed"@
    } else if spec_castle_path_blocked(b, king.color, kingside) {
        "Path is not clear for castling"@
    } else if spec_castle_path_attacked(b, king.color, kingside) {
        "Cannot castle through check"@
    } else {
        "No rook found for castling"@
    }
}

/// The reason `make_move` gives for a rejected move, following the order
/// its checks are made in.
pub open spec fn spec_make_move_error(b: BoardModel, m: Move) -> Seq<char> {
    match spec_at(b, m.from.file as int, m.from.rank as int) {
        None => "No piece at starting position"@,
        Some(p) => {
            if p.color != b.current_turn {
                "Not your turn"@
            } else if p.piece_type == PieceType::King && sabs(m.to.file - m.from.file) == 2 {
                spec_castle_error(b, m)
            } else if !spec_is_valid(b, m) {
                "Invalid move for this piece"@
            } else if !Board::spec_promo_ok(b, m) {
                if p.piece_type != PieceType::Pawn {
                    "Only pawns can be promoted"@
                } else {
                    "Pawns can only be promoted on the last rank"@
                }
            } else {
                "Move would leave king in check"@
            }
        },
    }
}

/// The moves that move generation proposes from `from`: plain moves to any
/// on-board square, plus the four promotion variants when a pawn reaches
/// its far rank.
pub open spec fn spec_gen_shape(b: BoardModel, from: Position, m: Move) -> bool {
    &&& m.from == from
    &&& m.move_type == MoveType::Normal
    &&& pos_valid(m.to)
    &&& match m.promotion {
        None => true,
        Some(t) => {
            &&& (t == PieceType::Queen || t == PieceType::Rook || t == PieceType::Bishop || t
                == PieceType::Knight)
            &&& match spec_at(b, from.file as int, from.rank as int) {
                Some(p) => p.piece_type == PieceType::Pawn && ((p.color == Color::White && m.to.rank
                    == 8) || (p.color == Color::Black && m.to.rank == 1)),
                None => false,
            }
        },
    }
}

/// A generated move from `from` that `make_move` accepts.
pub open spec fn spec_gen_legal(b: BoardModel, from: Position, m: Move) -> bool {
    spec_gen_shape(b, from, m) && spec_make_move_ok(b, m)
}

/// The side to move has at least one acceptable generated move.
pub open spec fn spec_has_legal_move(b: BoardModel) -> bool {
    exists|m: Move| #[trigger] spec_gen_legal(b, m.from, m)
}

impl Board {
    /// A fresh board holding the standard starting position, White to move.
    pub fn new() -> (r: Board)
        ensures
            r@.wf(),
            r@.current_turn == Color::White,
            r@.castling_rights == spec_initial_rights(),
            r@.last_move is None,
            forall|f: int, r2: int|
                1 <= f <= 8 && 1 <= r2 <= 8 ==> #[trigger] spec_at(r@, f, r2) == spec_initial_at(
                    f,
                    r2,
                ),
    {
        let mut squares: Vec<Option<Piece>> = Vec::new();
        let mut i: usize = 0;
        while i < 64
            invariant
                squares@.len() == i,
                i <= 64,
                forall|j: int| 0 <= j < i ==> squares@[j] is None,
            decreases 64 - i,
        {
            squares.push(None);
            i = i + 1;
        }
        let mut board = Board {
            squares,
            current_turn: Color::White,
            castling_rights: CastlingRights::default(),
            last_move: None,
        };
        board.setup_initial_position();
        board
    }

    /// Places the standard starting pieces; squares that the starting
    /// position leaves empty keep whatever they held.
    pub fn setup_initial_position(&mut self)
        requires
            old(self)@.wf(),
        ensures
            final(self)@.wf(),
            final(self)@.current_turn == old(self)@.current_turn,
            final(self)@.castling_rights == old(self)@.castling_rights,
            final(self)@.last_move == old(self)@.last_move,
            forall|f: int, r: int|
                1 <= f <= 8 && 1 <= r <= 8 ==> #[trigger] spec_at(final(self)@, f, r) == (
                if spec_initial_at(f, r) is Some {
                    spec_initial_at(f, r)
                } else {
                    spec_at(old(self)@, f, r)
                }),
    {
        let ghost orig: BoardModel = self@;
        let mut file: u8 = 1;
        while file <= 8
            invariant
                orig.wf(),
                self@.wf(),
                1 <= file <= 9,
                self@.current_turn == orig.current_turn,
                self@.castling_rights == orig.castling_rights,
                self@.last_move == orig.last_move,
                forall|f: int, r: int|
                    1 <= f <= 8 && 1 <= r <= 8 && f < file ==> #[trigger] spec_at(self@, f, r) == (
                    if spec_initial_at(f, r) is Some {
                        spec_initial_at(f, r)
                    } else {
                        spec_at(orig, f, r)
                    }),
                forall|f: int, r: int|
                    1 <= f <= 8 && 1 <= r <= 8 && f >= file ==> #[trigger] spec_at(self@, f, r)
                        == spec_at(orig, f, r),
            decreases 9 - file,
        {
            let ghost prev: BoardModel = self@;
            let pawn_w: usize = (2 - 1) * 8 + ((file - 1) as usize);
            let pawn_b: usize = (7 - 1) * 8 + ((file - 1) as usize);
            let back_w: usize = (1 - 1) * 8 + ((file - 1) as usize);
            let back_b: usize = (8 - 1) * 8 + ((file - 1) as usize);
            let kind = Self::back_rank_kind(file);
            self.squares.set(
                pawn_w,
                Some(Piece { piece_type: PieceType::Pawn, color: Color::White }),
            );
            self.squares.set(
                pawn_b,
                Some(Piece { piece_type: PieceType::Pawn, color: Color::Black }),
            );
            self.squares.set(back_w, Some(Piece { piece_type: kind, color: Color::White }));
            self.squares.set(back_b, Some(Piece { piece_type: kind, color: Color::Black }));
            proof {
                assert(sq_index(file as int, 2) == pawn_w);
                assert(sq_index(file as int, 7) == pawn_b);
                assert(sq_index(file as int, 1) == back_w);
                assert(sq_index(file as int, 8) == back_b);
                assert(spec_at(self@, file as int, 2) == Some(
                    Piece { piece_type: PieceType::Pawn, color: Color::White },
                ));
                assert(spec_at(self@, file as int, 7) == Some(
                    Piece { piece_type: PieceType::Pawn, color: Color::Black },
                ));
                assert(spec_at(self@, file as int, 1) == Some(
                    Piece { piece_type: spec_back_rank(file as int), color: Color::White },
                ));
                assert(spec_at(self@, file as int, 8) == Some(
                    Piece { piece_type: spec_back_rank(file as int), color: Color::Black },
                ));
                assert forall|f: int, r: int|
                    1 <= f <= 8 && 1 <= r <= 8 && (f != file || (r != 1 && r != 2 && r != 7 && r
                        != 8)) implies #[trigger] spec_at(self@, f, r) == spec_at(prev, f, r) by {
                    lemma_sq_index(f, r);
                    lemma_sq_index_injective(f, r, file as int, 2);
                    lemma_sq_index_injective(f, r, file as int, 7);
                    lemma_sq_index_injective(f, r, file as int, 1);
                    lemma_sq_index_injective(f, r, file as int, 8);
                }
                assert forall|f: int, r: int|
                    1 <= f <= 8 && 1 <= r <= 8 && f < file + 1 implies #[trigger] spec_at(
                    self@,
                    f,
                    r,
                ) == (if spec_initial_at(f, r) is Some {
                    spec_initial_at(f, r)
                } else {
                    spec_at(orig, f, r)
                }) by {
                    if f < file {
                        assert(spec_at(prev, f, r) == (if spec_initial_at(f, r) is Some {
                            spec_initial_at(f, r)
                        } else {
                            spec_at(orig, f, r)
                        }));
                    } else {
                        assert(spec_at(prev, f, r) == spec_at(orig, f, r));
                    }
                }
            }
            file = file + 1;
        }
    }

    fn back_rank_kind(file: u8) -> (r: PieceType)
        ensures
            r == spec_back_rank(file as int),
    {
        if file == 1 || file == 8 {
            PieceType::Rook
        } else if file == 2 || file == 7 {
            PieceType::Knight
        } else if file == 3 || file == 6 {
            PieceType::Bishop
        } else if file == 4 {
            PieceType::Queen
        } else {
            PieceType::King
        }
    }

    /// The piece on a square, `None` when empty or off the board.
    pub fn get_piece(&self, pos: Position) -> (r: Option<Piece>)
        requires
            self@.wf(),
        ensures
            r == spec_at(self@, pos.file as int, pos.rank as int),
    {
        if pos.file < 1 || pos.file > 8 || pos.rank < 1 || pos.rank > 8 {
            return None;
        }
        let idx: usize = ((pos.rank - 1) as usize) * 8 + ((pos.file - 1) as usize);
        self.squares[idx]
    }

    pub fn current_turn(&self) -> (r: Color)
        ensures
            r == self@.current_turn,
    {
        self.current_turn
    }

    pub fn last_move(&self) -> (r: Option<Move>)
        ensures
            r == self@.last_move,
    {
        self.last_move
    }

    pub fn is_position_valid(&self, pos: Position) -> (r: bool)
        ensures
            r == pos_valid(pos),
    {
        pos.file >= 1 && pos.file <= 8 && pos.rank >= 1 && pos.rank <= 8
    }

    /// Whether the proposed promotion, if any, is allowed: only a pawn may
    /// promote, and only on the far rank. Meaningful when a piece stands on
    /// `m.from`.
    pub open spec fn spec_promo_ok(b: BoardModel, m: Move) -> bool {
        let p = spec_at(b, m.from.file as int, m.from.rank as int)->0;
        match m.promotion {
            None => true,
            Some(_) => p.piece_type == PieceType::Pawn && ((p.color == Color::White && m.to.rank
                == 8) || (p.color == Color::Black && m.to.rank == 1)),
        }
    }

    /// Whether applying `m` captures en passant: a pawn steps diagonally onto
    /// an empty square while the last move pushed a pawn two ranks in that
    /// file. Judged on the board with the moving piece already lifted.
    pub open spec fn spec_is_ep_capture(b: BoardModel, m: Move) -> bool {
        let p = spec_at(b, m.from.file as int, m.from.rank as int)->0;
        let lifted = b.squares.update(sq_index(m.from.file as int, m.from.rank as int), None);
        &&& p.piece_type == PieceType::Pawn
        &&& sabs(m.to.file - m.from.file) == 1
        &&& lifted[sq_index(m.to.file as int, m.to.rank as int)] is None
        &&& match b.last_move {
            Some(lm) => {
                &&& lm.from.file == m.to.file
                &&& match lifted[sq_index(lm.to.file as int, lm.to.rank as int)] {
                    Some(lp) => lp.piece_type == PieceType::Pawn,
                    None => false,
                }
                &&& sabs(lm.to.rank - lm.from.rank) == 2
            },
            None => false,
        }
    }

    /// The board after carrying out `m` without validating it: the piece is
    /// lifted, an en-passant victim is removed, a promotion is applied, the
    /// destination is overwritten, and the turn passes. Castling rights and
    /// the recorded last move are not touched here.
    pub open spec fn spec_apply(b: BoardModel, m: Move) -> BoardModel {
        let p = spec_at(b, m.from.file as int, m.from.rank as int)->0;
        let s1 = b.squares.update(sq_index(m.from.file as int, m.from.rank as int), None);
        let s2 = if Self::spec_is_ep_capture(b, m) {
            s1.update(sq_index(b.last_move->0.to.file as int, b.last_move->0.to.rank as int), None)
        } else {
            s1
        };
        let fp = match m.promotion {
            Some(t) => Piece { piece_type: t, color: p.color },
            None => p,
        };
        let s3 = s2.update(sq_index(m.to.file as int, m.to.rank as int), Some(fp));
        BoardModel {
            squares: s3,
            current_turn: spec_opposite(b.current_turn),
            castling_rights: b.castling_rights,
            last_move: b.last_move,
        }
    }

    /// An owned copy of the board with the same mathematical value. The
    /// search copies a board for every branch it explores instead of
    /// undoing moves.
    pub fn duplicate(&self) -> (r: Board)
        requires
            self@.wf(),
        ensures
            r@ == self@,
    {
        let mut squares: Vec<Option<Piece>> = Vec::new();
        let mut i: usize = 0;
        while i < 64
            invariant
                self@.wf(),
                squares@.len() == i,
                i <= 64,
                forall|j: int| 0 <= j < i ==> squares@[j] == self.squares@[j],
            decreases 64 - i,
        {
            squares.push(self.squares[i]);
            i = i + 1;
        }
        proof {
            assert(squares@ =~= self.squares@);
        }
        let r = Board {
            squares,
            current_turn: self.current_turn,
            castling_rights: self.castling_rights,
            last_move: self.last_move,
        };
        proof {
            assert(r@ =~= self@);
        }
        r
    }

    /// Carries out a move that has already been judged, rejecting only an
    /// impossible promotion. The board is untouched on rejection.
    fn make_move_without_validation(&mut self, chess_move: Move) -> (r: Result<
        (),
        &'static str,
    >)
        requires
            old(self)@.wf(),
            pos_valid(chess_move.from),
            pos_valid(chess_move.to),
            spec_at(old(self)@, chess_move.from.file as int, chess_move.from.rank as int) is Some,
        ensures
            r is Ok <==> Board::spec_promo_ok(old(self)@, chess_move),
            r is Ok ==> final(self)@ == Board::spec_apply(old(self)@, chess_move)
                && final(self)@.wf(),
            r is Err ==> final(self)@ == old(self)@,
            r matches Err(e) ==> e@ == (if spec_at(
                old(self)@,
                chess_move.from.file as int,
                chess_move.from.rank as int,
            )->0.piece_type != PieceType::Pawn {
                "Only pawns can be promoted"@
            } else {
                "Pawns can only be promoted on the last rank"@
            }),
    {
        let ghost b0: BoardModel = self@;
        let piece = self.get_piece(chess_move.from).unwrap();
        if let Some(_) = chess_move.promotion {
            if !(piece.piece_type == PieceType::Pawn) {
                return Err("Only pawns can be promoted");
            }
            if (piece.color == Color::White && chess_move.to.rank != 8) || (piece.color
                == Color::Black && chess_move.to.rank != 1) {
                return Err("Pawns can only be promoted on the last rank");
            }
        }
        let from_idx: usize = ((chess_move.from.rank - 1) as usize) * 8 + ((chess_move.from.file
            - 1) as usize);
        let to_idx: usize = ((chess_move.to.rank - 1) as usize) * 8 + ((chess_move.to.file
            - 1) as usize);
        proof {
            assert(sq_index(chess_move.from.file as int, chess_move.from.rank as int) == from_idx);
            assert(sq_index(chess_move.to.file as int, chess_move.to.rank as int) == to_idx);
            lemma_sq_index(chess_move.from.file as int, chess_move.from.rank as int);
            lemma_sq_index(chess_move.to.file as int, chess_move.to.rank as int);
        }
        self.squares.set(from_idx, None);
        // Detect an en-passant capture on the board with the mover lifted.
        let mut is_ep: bool = false;
        if piece.piece_type == PieceType::Pawn {
            let file_diff = (chess_move.to.file as i32) - (chess_move.from.file as i32);
            let diagonal = file_diff == 1 || file_diff == -1;
            if diagonal && self.get_piece(chess_move.to).is_none() {
                if let Some(last_move) = self.last_move {
                    if last_move.from.file == chess_move.to.file {
                        if let Some(last_piece) = self.get_piece(last_move.to) {
                            if last_piece.piece_type == PieceType::Pawn {
                                let last_rank_diff = (last_move.to.rank as i32) - (
                                last_move.from.rank as i32);
                                if last_rank_diff == 2 || last_rank_diff == -2 {
                                    is_ep = true;
                                }
                            }
                        }
                    }
                }
            }
        }
        proof {
            assert(is_ep == Board::spec_is_ep_capture(b0, chess_move));
        }
        if is_ep {
            let lm = self.last_move.unwrap();
            let cap_idx: usize = ((lm.to.rank - 1) as usize) * 8 + ((lm.to.file - 1) as usize);
            proof {
                lemma_sq_index(lm.to.file as int, lm.to.rank as int);
            }
            self.squares.set(cap_idx, None);
        }
        let final_piece = match chess_move.promotion {
            Some(promotion_type) => Piece { piece_type: promotion_type, color: piece.color },
            None => piece,
        };
        self.squares.set(to_idx, Some(final_piece));
        self.current_turn = self.current_turn.opposite();
        proof {
            assert(self@ =~= Board::spec_apply(b0, chess_move));
        }
        Ok(())
    }

    /// Whether some enemy piece has a valid move onto `pos`.
    pub fn is_position_under_attack(&self, pos: Position, defending_color: Color) -> (r: bool)
        requires
            self@.wf(),
        ensures
            r == spec_attacked(self@, pos.file as int, pos.rank as int, defending_color),
    {
        let mut i: usize = 0;
        while i < 64
            invariant
                self@.wf(),
                i <= 64,
                forall|af: int, ar: int|
                    1 <= af <= 8 && 1 <= ar <= 8 && sq_index(af, ar) < i ==> match #[trigger] spec_at(
                        self@,
                        af,
                        ar,
                    ) {
                        Some(attacker) => !(attacker.color != defending_color && spec_is_valid(
                            self@,
                            spec_plain_move(af, ar, pos.file as int, pos.rank as int),
                        )),
                        None => true,
                    },
            decreases 64 - i,
        {
            let af: u8 = (i % 8 + 1) as u8;
            let ar: u8 = (i / 8 + 1) as u8;
            let attacker_pos = Position { file: af, rank: ar };
            proof {
                assert(i == 8 * (i as int / 8) + (i as int % 8));
                assert(sq_index(af as int, ar as int) == i);
            }
            if let Some(attacker) = self.get_piece(attacker_pos) {
                if !(attacker.color == defending_color) {
                    let attack_move = Move::new(attacker_pos, pos);
                    if attack_move.is_valid(self) {
                        proof {
                            assert(attack_move == spec_plain_move(
                                af as int,
                                ar as int,
                                pos.file as int,
                                pos.rank as int,
                            ));
                        }
                        return true;
                    }
                }
            }
            i = i + 1;
        }
        proof {
            assert forall|af: int, ar: int| 1 <= af <= 8 && 1 <= ar <= 8 implies sq_index(af, ar)
                < 64 by {
                lemma_sq_index(af, ar);
            }
        }
        false
    }

    /// Carries out a castling attempt, checking rights, path and rook. The
    /// board is untouched on rejection.
    #[verifier::loop_isolation(false)]
    #[verifier::rlimit(60)]
    fn handle_castling(&mut self, chess_move: Move) -> (r: Result<(), &'static str>)
        requires
            old(self)@.wf(),
            spec_at(
                old(self)@,
                chess_move.from.file as int,
                chess_move.from.rank as int,
            ) is Some,
        ensures
            r is Ok <==> spec_castle_ok(old(self)@, chess_move),
            r is Ok ==> final(self)@ == spec_castle_apply(old(self)@, chess_move)
                && final(self)@.wf(),
            r is Err ==> final(self)@ == old(self)@,
            r matches Err(e) ==> e@ == spec_castle_error(old(self)@, chess_move),
    {
        let ghost b0: BoardModel = self@;
        let king = self.get_piece(chess_move.from).unwrap();
        let rank: u8 = if king.color == Color::White {
            1
        } else {
            8
        };
        if !self.is_position_valid(chess_move.to) {
            return Err("Castling target is off the board");
        }
        let is_kingside = chess_move.to.file == 7;
        let can_castle = if king.color == Color::White {
            if is_kingside {
                self.castling_rights.white_kingside
            } else {
                self.castling_rights.white_queenside
            }
        } else {
            if is_kingside {
                self.castling_rights.black_kingside
            } else {
                self.castling_rights.black_queenside
            }
        };
        if !can_castle {
            return Err("Castling is not allowed");
        }
        let blocked = if is_kingside {
            self.get_piece(Position { file: 6, rank }).is_some() || self.get_piece(
                Position { file: 7, rank },
            ).is_some()
        } else {
            self.get_piece(Position { file: 2, rank }).is_some() || self.get_piece(
                Position { file: 3, rank },
            ).is_some() || self.get_piece(Position { file: 4, rank }).is_some()
        };
        if blocked {
            return Err("Path is not clear for castling");
        }
        let attacked = if is_kingside {
            self.is_position_under_attack(Position { file: 5, rank }, king.color)
                || self.is_position_under_attack(Position { file: 6, rank }, king.color)
                || self.is_position_under_attack(Position { file: 7, rank }, king.color)
        } else {
            self.is_position_under_attack(Position { file: 3, rank }, king.color)
                || self.is_position_under_attack(Position { file: 4, rank }, king.color)
                || self.is_position_under_attack(Position { file: 5, rank }, king.color)
        };
        if attacked {
            return Err("Cannot castle through check");
        }
        let rook_from = Position {
            file: if is_kingside {
                8
            } else {
                1
            },
            rank,
        };
        let rook_to = Position {
            file: if is_kingside {
                6
            } else {
                4
            },
            rank,
        };
        // What stands in the rook corner once the king has stepped.
        let rook_opt: Option<Piece> = if rook_from == chess_move.to {
            Some(king)
        } else if rook_from == chess_move.from {
            None
        } else {
            self.get_piece(rook_from)
        };
        let rook = match rook_opt {
            Some(p) => p,
            None => {
                proof {
                    lemma_sq_index(chess_move.from.file as int, chess_move.from.rank as int);
                    lemma_sq_index(chess_move.to.file as int, chess_move.to.rank as int);
                    lemma_sq_index(rook_from.file as int, rook_from.rank as int);
                }
                return Err("No rook found for castling");
            },
        };
        proof {
            lemma_sq_index(chess_move.from.file as int, chess_move.from.rank as int);
            lemma_sq_index(chess_move.to.file as int, chess_move.to.rank as int);
            lemma_sq_index(rook_from.file as int, rook_from.rank as int);
            lemma_sq_index(rook_to.file as int, rook_to.rank as int);
            assert(spec_castle_king_moved(b0, chess_move)[sq_index(
                rook_from.file as int,
                rook_from.rank as int,
            )] == Some(rook));
        }
        let from_idx: usize = ((chess_move.from.rank - 1) as usize) * 8 + ((chess_move.from.file
            - 1) as usize);
        let to_idx: usize = ((chess_move.to.rank - 1) as usize) * 8 + ((chess_move.to.file
            - 1) as usize);
        let rf_idx: usize = ((rook_from.rank - 1) as usize) * 8 + ((rook_from.file - 1) as usize);
        let rt_idx: usize = ((rook_to.rank - 1) as usize) * 8 + ((rook_to.file - 1) as usize);
        self.squares.set(from_idx, None);
        self.squares.set(to_idx, Some(king));
        self.squares.set(rf_idx, None);
        self.squares.set(rt_idx, Some(rook));
        if king.color == Color::White {
            self.castling_rights.white_kingside = false;
            self.castling_rights.white_queenside = false;
        } else {
            self.castling_rights.black_kingside = false;
            self.castling_rights.black_queenside = false;
        }
        self.current_turn = self.current_turn.opposite();
        self.last_move = Some(chess_move);
        proof {
            assert(self@ =~= spec_castle_apply(b0, chess_move));
        }
        Ok(())
    }

    /// Spends the castling rights that `chess_move` uses up.
    fn update_castling_rights(&mut self, piece: Piece, chess_move: Move)
        ensures
            final(self)@ == (BoardModel {
                castling_rights: spec_update_rights(
                    old(self)@.castling_rights,
                    piece,
                    chess_move,
                ),
                ..old(self)@
            }),
    {
        match piece.piece_type {
            PieceType::King => {
                if piece.color == Color::White {
                    self.castling_rights.white_kingside = false;
                    self.castling_rights.white_queenside = false;
                } else {
                    self.castling_rights.black_kingside = false;
                    self.castling_rights.black_queenside = false;
                }
            },
            PieceType::Rook => {
                let rank = chess_move.from.rank;
                let file = chess_move.from.file;
                if piece.color == Color::White && rank == 1 {
                    if file == 1 {
                        self.castling_rights.white_queenside = false;
                    } else if file == 8 {
                        self.castling_rights.white_kingside = false;
                    }
                } else if piece.color == Color::Black && rank == 8 {
                    if file == 1 {
                        self.castling_rights.black_queenside = false;
                    } else if file == 8 {
                        self.castling_rights.black_kingside = false;
                    }
                }
            },
            _ => {},
        }
        proof {
            assert(self@ =~= (BoardModel {
                castling_rights: spec_update_rights(old(self)@.castling_rights, piece, chess_move),
                ..old(self)@
            }));
        }
    }

    /// Makes a move, enforcing turn order, the movement rules, castling and
    /// promotion legality, and that the mover's king is not left in check.
    /// On rejection the board is unchanged and an error says why.
    pub fn make_move(&mut self, chess_move: Move) -> (r: Result<(), &'static str>)
        requires
            old(self)@.wf(),
        ensures
            r is Ok <==> spec_make_move_ok(old(self)@, chess_move),
            r is Ok ==> final(self)@ == spec_make_move(old(self)@, chess_move)
                && final(self)@.wf(),
            r is Err ==> final(self)@ == old(self)@,
            r matches Err(e) ==> e@ == spec_make_move_error(old(self)@, chess_move),
    {
        let ghost b0: BoardModel = self@;
        let piece = match self.get_piece(chess_move.from) {
            Some(p) => p,
            None => {
                return Err("No piece at starting position");
            },
        };
        if piece.color != self.current_turn {
            return Err("Not your turn");
        }
        if piece.piece_type == PieceType::King {
            let file_diff = (chess_move.to.file as i32) - (chess_move.from.file as i32);
            if file_diff == 2 || file_diff == -2 {
                return self.handle_castling(chess_move);
            }
        }
        if !chess_move.is_valid(self) {
            return Err("Invalid move for this piece");
        }
        let mut temp_board = self.duplicate();
        if let Err(e) = temp_board.make_move_without_validation(chess_move) {
            return Err(e);
        }
        if temp_board.is_in_check(piece.color) {
            return Err("Move would leave king in check");
        }
        self.update_castling_rights(piece, chess_move);
        let apply_result = self.make_move_without_validation(chess_move);
        proof {
            assert(apply_result is Ok);
        }
        self.last_move = Some(chess_move);
        proof {
            assert(self@ =~= spec_make_move(b0, chess_move));
        }
        Ok(())
    }

    /// Tries one candidate move on a scratch copy and keeps it when
    /// `make_move` accepts it.
    fn consider_move(&self, moves: &mut Vec<Move>, m: Move)
        requires
            self@.wf(),
        ensures
            spec_make_move_ok(self@, m) ==> final(moves)@.contains(m),
            forall|x: Move| old(moves)@.contains(x) ==> final(moves)@.contains(x),
            forall|i: int|
                0 <= i < final(moves)@.len() ==> old(moves)@.contains(final(moves)@[i])
                    || (final(moves)@[i] == m && spec_make_move_ok(self@, m)),
    {
        let ghost before = moves@;
        let p = match self.get_piece(m.from) {
            Some(p) => p,
            None => {
                return ;
            },
        };
        // A king's two-file step may be a castling attempt, which the
        // movement rules alone would refuse.
        let file_diff = (m.to.file as i32) - (m.from.file as i32);
        let castle_shape = p.piece_type == PieceType::King && (file_diff == 2 || file_diff == -2);
        if !castle_shape && !m.is_valid(self) {
            return ;
        }
        let mut tb = self.duplicate();
        if tb.make_move(m).is_ok() {
            moves.push(m);
            proof {
                assert(moves@ == before.push(m));
                assert(moves@[before.len() as int] == m);
                assert forall|x: Move| before.contains(x) implies moves@.contains(x) by {
                    let i = choose|i: int| 0 <= i < before.len() && before[i] == x;
                    assert(moves@[i] == x);
                }
            }
        }
    }

    /// Every move from `pos` that `make_move` would accept: plain moves to
    /// each square, the promotion variants on a pawn's far rank, and a
    /// king's castling step. Empty when `pos` does not hold a piece of the
    /// side to move.
    #[verifier::loop_isolation(false)]
    #[verifier::rlimit(100)]
    pub fn get_valid_moves(&self, pos: Position) -> (moves: Vec<Move>)
        requires
            self@.wf(),
        ensures
            forall|i: int|
                0 <= i < moves@.len() ==> #[trigger] spec_gen_legal(self@, pos, moves@[i]),
            forall|m: Move| #[trigger] spec_gen_legal(self@, pos, m) ==> moves@.contains(m),
    {
        let ghost b = self@;
        let mut moves: Vec<Move> = Vec::new();
        let piece = match self.get_piece(pos) {
            Some(p) => p,
            None => {
                return moves;
            },
        };
        if piece.color != self.current_turn() {
            return moves;
        }
        let mut ti: usize = 0;
        while ti < 64
            invariant
                forall|i: int|
                    0 <= i < moves@.len() ==> #[trigger] spec_gen_legal(b, pos, moves@[i]),
                forall|m: Move|
                    #[trigger] spec_gen_legal(b, pos, m) && sq_index(
                        m.to.file as int,
                        m.to.rank as int,
                    ) < ti ==> moves@.contains(m),
                ti <= 64,
            decreases 64 - ti,
        {
            let to = Position { file: (ti % 8 + 1) as u8, rank: (ti / 8 + 1) as u8 };
            proof {
                assert(ti == 8 * (ti as int / 8) + (ti as int % 8));
                assert(sq_index(to.file as int, to.rank as int) == ti);
            }
            let plain = Move::new(pos, to);
            self.consider_move(&mut moves, plain);
            let promo_rank = (piece.color == Color::White && to.rank == 8) || (piece.color
                == Color::Black && to.rank == 1);
            let is_pawn = piece.piece_type == PieceType::Pawn;
            if is_pawn && promo_rank {
                self.consider_move(&mut moves, Move::with_promotion(pos, to, PieceType::Queen));
                self.consider_move(&mut moves, Move::with_promotion(pos, to, PieceType::Rook));
                self.consider_move(&mut moves, Move::with_promotion(pos, to, PieceType::Bishop));
                self.consider_move(&mut moves, Move::with_promotion(pos, to, PieceType::Knight));
            }
            proof {
                assert forall|m: Move|
                    spec_gen_legal(b, pos, m) && sq_index(m.to.file as int, m.to.rank as int)
                        == ti implies moves@.contains(m) by {
                    lemma_sq_index(m.to.file as int, m.to.rank as int);
                    assert(m.to.file as int == to.file as int && m.to.rank as int
                        == to.rank as int);
                    assert(m.to == to);
                    match m.promotion {
                        None => {
                            assert(m == plain);
                        },
                        Some(t) => {
                            assert(m == (Move {
                                from: pos,
                                to,
                                promotion: Some(t),
                                move_type: MoveType::Normal,
                            }));
                        },
                    }
                }
            }
            ti = ti + 1;
        }
        proof {
            assert forall|m: Move| spec_gen_legal(b, pos, m) implies moves@.contains(m) by {
                lemma_sq_index(m.to.file as int, m.to.rank as int);
            }
        }
        moves
    }

    /// Whether the side to move has any acceptable move at all.
    #[verifier::loop_isolation(false)]
    pub fn has_any_legal_move(&self) -> (r: bool)
        requires
            self@.wf(),
        ensures
            r == spec_has_legal_move(self@),
    {
        let ghost b = self@;
        let mut fi: usize = 0;
        while fi < 64
            invariant
                fi <= 64,
                forall|m: Move|
                    sq_index(m.from.file as int, m.from.rank as int) < fi
                        ==> !(#[trigger] spec_gen_legal(b, m.from, m)),
            decreases 64 - fi,
        {
            let from = Position { file: (fi % 8 + 1) as u8, rank: (fi / 8 + 1) as u8 };
            proof {
                assert(fi == 8 * (fi as int / 8) + (fi as int % 8));
                assert(sq_index(from.file as int, from.rank as int) == fi);
            }
            let vm = self.get_valid_moves(from);
            if vm.len() > 0 {
                let ghost w = vm@[0];
                proof {
                    assert(spec_gen_legal(b, from, w));
                    assert(w.from == from);
                    assert(spec_gen_legal(b, w.from, w));
                }
                return true;
            }
            proof {
                assert forall|m: Move|
                    sq_index(m.from.file as int, m.from.rank as int) == fi implies !spec_gen_legal(
                    b,
                    m.from,
                    m,
                ) by {
                    if spec_gen_legal(b, m.from, m) {
                        lemma_sq_index(m.from.file as int, m.from.rank as int);
                        assert(m.from == from);
                        assert(vm@.contains(m));
                    }
                }
            }
            fi = fi + 1;
        }
        proof {
            assert forall|m: Move| !spec_gen_legal(b, m.from, m) by {
                if spec_gen_legal(b, m.from, m) {
                    lemma_sq_index(m.from.file as int, m.from.rank as int);
                }
            }
        }
        false
    }

    fn count_pieces(&self, color: Color) -> (r: u32)
        requires
            self@.wf(),
        ensures
            r == spec_count_color(self@, color, 0),
    {
        let mut count: u32 = 0;
        let mut i: usize = 0;
        while i < 64
            invariant
                self@.wf(),
                i <= 64,
                count <= i,
                spec_count_color(self@, color, 0) == count + spec_count_color(
                    self@,
                    color,
                    i as int,
                ),
            decreases 64 - i,
        {
            if let Some(p) = self.squares[i] {
                if p.color == color {
                    count = count + 1;
                }
            }
            i = i + 1;
        }
        count
    }

    fn first_non_king(&self, color: Color) -> (r: Option<Piece>)
        requires
            self@.wf(),
        ensures
            r == spec_first_non_king(self@, color, 0),
    {
        let mut i: usize = 0;
        while i < 64
            invariant
                self@.wf(),
                i <= 64,
                spec_first_non_king(self@, color, 0) == spec_first_non_king(
                    self@,
                    color,
                    i as int,
                ),
            decreases 64 - i,
        {
            if let Some(p) = self.squares[i] {
                if p.color == color && !(p.piece_type == PieceType::King) {
                    return Some(p);
                }
            }
            i = i + 1;
        }
        None
    }

    fn first_bishop(&self, color: Color) -> (r: Option<usize>)
        requires
            self@.wf(),
        ensures
            match r {
                Some(i) => Some(i as int) == spec_first_bishop(self@, color, 0) && i < 64,
                None => spec_first_bishop(self@, color, 0) is None,
            },
    {
        let mut i: usize = 0;
        while i < 64
            invariant
                self@.wf(),
                i <= 64,
                spec_first_bishop(self@, color, 0) == spec_first_bishop(self@, color, i as int),
            decreases 64 - i,
        {
            if let Some(p) = self.squares[i] {
                if p.color == color && p.piece_type == PieceType::Bishop {
                    return Some(i);
                }
            }
            i = i + 1;
        }
        None
    }

    /// Neither side can force mate from this material: bare kings, a lone
    /// minor piece against a bare king, or one bishop each on same-shaded
    /// squares.
    pub fn has_insufficient_material(&self) -> (r: bool)
        requires
            self@.wf(),
        ensures
            r == spec_insufficient_material(self@),
    {
        let nw = self.count_pieces(Color::White);
        let nb = self.count_pieces(Color::Black);
        if nw == 1 && nb == 1 {
            return true;
        }
        if (nw == 2 && nb == 1) || (nw == 1 && nb == 2) {
            let larger = if nw > nb {
                Color::White
            } else {
                Color::Black
            };
            return match self.first_non_king(larger) {
                Some(p) => p.piece_type == PieceType::Bishop || p.piece_type == PieceType::Knight,
                None => false,
            };
        }
        if nw == 2 && nb == 2 {
            let wb = self.first_bishop(Color::White);
            let bb = self.first_bishop(Color::Black);
            return match (wb, bb) {
                (Some(i), Some(j)) => (i % 8 + 1 + i / 8 + 1) % 2 == (j % 8 + 1 + j / 8 + 1) % 2,
                _ => false,
            };
        }
        false
    }

    /// Every occupied square with its piece, in board-vector order.
    #[verifier::loop_isolation(false)]
    pub fn get_all_pieces(&self) -> (r: Vec<(Position, Piece)>)
        requires
            self@.wf(),
        ensures
            forall|i: int|
                0 <= i < r@.len() ==> pos_valid(#[trigger] r@[i].0) && spec_at(
                    self@,
                    r@[i].0.file as int,
                    r@[i].0.rank as int,
                ) == Some(r@[i].1),
            forall|f: int, r2: int|
                1 <= f <= 8 && 1 <= r2 <= 8 && (#[trigger] spec_at(self@, f, r2)) is Some
                    ==> r@.contains(
                    (Position { file: f as u8, rank: r2 as u8 }, spec_at(self@, f, r2)->0),
                ),
    {
        let ghost b = self@;
        let mut r: Vec<(Position, Piece)> = Vec::new();
        let mut i: usize = 0;
        while i < 64
            invariant
                self@.wf(),
                i <= 64,
                forall|k: int|
                    0 <= k < r@.len() ==> pos_valid(#[trigger] r@[k].0) && spec_at(
                        b,
                        r@[k].0.file as int,
                        r@[k].0.rank as int,
                    ) == Some(r@[k].1),
                forall|f: int, r2: int|
                    1 <= f <= 8 && 1 <= r2 <= 8 && sq_index(f, r2) < i && (#[trigger] spec_at(
                        b,
                        f,
                        r2,
                    )) is Some ==> r@.contains(
                        (Position { file: f as u8, rank: r2 as u8 }, spec_at(b, f, r2)->0),
                    ),
            decreases 64 - i,
        {
            let pos = Position { file: (i % 8 + 1) as u8, rank: (i / 8 + 1) as u8 };
            proof {
                assert(i == 8 * (i as int / 8) + (i as int % 8));
                assert(sq_index(pos.file as int, pos.rank as int) == i);
            }
            let ghost prev = r@;
            if let Some(p) = self.squares[i] {
                r.push((pos, p));
                proof {
                    assert(r@[prev.len() as int] == (pos, p));
                    assert forall|x: (Position, Piece)| prev.contains(x) implies r@.contains(
                        x,
                    ) by {
                        let k = choose|k: int| 0 <= k < prev.len() && prev[k] == x;
                        assert(r@[k] == x);
                    }
                }
            }
            proof {
                assert forall|f: int, r2: int|
                    1 <= f <= 8 && 1 <= r2 <= 8 && sq_index(f, r2) == i && spec_at(
                        b,
                        f,
                        r2,
                    ) is Some implies r@.contains(
                    (Position { file: f as u8, rank: r2 as u8 }, spec_at(b, f, r2)->0),
                ) by {
                    lemma_sq_index(f, r2);
                    assert(f == pos.file as int && r2 == pos.rank as int);
                }
            }
            i = i + 1;
        }
        proof {
            assert forall|f: int, r2: int|
                1 <= f <= 8 && 1 <= r2 <= 8 && spec_at(b, f, r2) is Some implies sq_index(f, r2)
                < 64 by {
                lemma_sq_index(f, r2);
            }
        }
        r
    }

    /// Checkmate: the side to move is in check and has no move.
    pub fn is_checkmate(&self) -> (r: bool)
        requires
            self@.wf(),
        ensures
            r == (spec_in_check(self@, self@.current_turn) && !spec_has_legal_move(self@)),
    {
        if !self.is_in_check(self.current_turn) {
            return false;
        }
        !self.has_any_legal_move()
    }

    /// Stalemate: the side to move is not in check yet has no move.
    pub fn is_stalemate(&self) -> (r: bool)
        requires
            self@.wf(),
        ensures
            r == (!spec_in_check(self@, self@.current_turn) && !spec_has_legal_move(self@)),
    {
        if self.is_in_check(self.current_turn) {
            return false;
        }
        !self.has_any_legal_move()
    }

    /// Whether `color`'s king is attacked. A board without that king is
    /// reported as not in check.
    pub fn is_in_check(&self, color: Color) -> (r: bool)
        requires
            self@.wf(),
        ensures
            r == spec_in_check(self@, color),
    {
        let mut i: usize = 0;
        while i < 64
            invariant
                self@.wf(),
                i <= 64,
                spec_first_king(self@, color, 0) == spec_first_king(self@, color, i as int),
            decreases 64 - i,
        {
            if let Some(p) = self.squares[i] {
                if p.piece_type == PieceType::King && p.color == color {
                    let kf: u8 = (i % 8 + 1) as u8;
                    let kr: u8 = (i / 8 + 1) as u8;
                    proof {
                        assert(self@.squares[i as int] == Some(
                            Piece { piece_type: PieceType::King, color },
                        ));
                        assert(spec_first_king(self@, color, i as int) == Some(i as int));
                        assert(i == 8 * (i as int / 8) + (i as int % 8));
                    }
                    return self.is_position_under_attack(Position { file: kf, rank: kr }, color);
                }
            }
            proof {
                assert(spec_first_king(self@, color, i as int) == spec_first_king(
                    self@,
                    color,
                    i + 1,
                ));
            }
            i = i + 1;
        }
        false
    }
}

} // verus!
