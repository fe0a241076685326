//! Mirroring the two sides of a board: every piece changes color and moves
//! to the rank-reflected square, castling rights swap sides, the recorded
//! last move is reflected, and the same player keeps the turn. The mover
//! then faces the position its opponent had, so a perspective-correct
//! evaluation must negate.

use vstd::prelude::*;
use crate::position::{Position, pos_valid};
use crate::piece::{Piece, Color, spec_flip_piece};
use crate::moves::{Move, sabs, ssign, spec_is_valid, spec_pawn_ok, spec_path_clear, spec_en_passant_ok, spec_movement_ok};
use crate::board::{Board, BoardModel, CastlingRights, spec_at, sq_index, lemma_sq_index};

verus! {

/// Color-swaps the piece of an occupied square.
pub open spec fn spec_flip_opt(o: Option<Piece>) -> Option<Piece> {
    match o {
        Some(p) => Some(spec_flip_piece(p)),
        None => None,
    }
}

/// The rank-reflected square: rank `r` becomes `9 - r`.
pub open spec fn spec_mirror_pos(p: Position) -> Position {
    Position { file: p.file, rank: (9 - p.rank) as u8 }
}

/// The rank-reflected move.
pub open spec fn spec_mirror_move(m: Move) -> Move {
    Move {
        from: spec_mirror_pos(m.from),
        to: spec_mirror_pos(m.to),
        move_type: m.move_type,
        promotion: m.promotion,
    }
}

/// Castling rights with the two sides exchanged.
pub open spec fn spec_mirror_rights(r: CastlingRights) -> CastlingRights {
    CastlingRights {
        white_kingside: r.black_kingside,
        white_queenside: r.black_queenside,
        black_kingside: r.white_kingside,
        black_queenside: r.white_queenside,
    }
}

/// The board with its sides mirrored.
pub open spec fn spec_mirror(b: BoardModel) -> BoardModel {
    BoardModel {
        squares: Seq::new(64, |i: int| spec_flip_opt(b.squares[8 * (7 - i / 8) + i % 8])),
        current_turn: b.current_turn,
        castling_rights: spec_mirror_rights(b.castling_rights),
        last_move: match b.last_move {
            Some(m) => Some(spec_mirror_move(m)),
            None => None,
        },
    }
}

/// Reading a square of the mirrored board reads the rank-reflected square
/// of the original, with the piece color-swapped.
pub proof fn lemma_mirror_at(b: BoardModel, f: int, r: int)
    requires
        b.wf(),
    ensures
        spec_at(spec_mirror(b), f, r) == spec_flip_opt(spec_at(b, f, 9 - r)),
{
    if 1 <= f <= 8 && 1 <= r <= 8 {
        lemma_sq_index(f, r);
        lemma_sq_index(f, 9 - r);
        let i = sq_index(f, r);
        assert(8 * (7 - i / 8) + i % 8 == sq_index(f, 9 - r));
    }
}

/// The mirrored board is well formed whenever the original is.
pub proof fn lemma_mirror_wf(b: BoardModel)
    requires
        b.wf(),
    ensures
        spec_mirror(b).wf(),
{
}

/// Walking a path on the mirrored board is walking the reflected path on
/// the original: the squares passed through correspond one to one.
pub proof fn lemma_mirror_path_clear(b: BoardModel, m: Move)
    requires
        b.wf(),
        pos_valid(m.from),
        pos_valid(m.to),
    ensures
        spec_path_clear(spec_mirror(b), m) == spec_path_clear(b, spec_mirror_move(m)),
{
    let mb = spec_mirror(b);
    let m2 = spec_mirror_move(m);
    let fd = m.to.file - m.from.file;
    let rd = m.to.rank - m.from.rank;
    let n = if sabs(fd) > sabs(rd) {
        sabs(fd)
    } else {
        sabs(rd)
    };
    assert(m2.to.file - m2.from.file == fd);
    assert(m2.to.rank - m2.from.rank == -rd);
    assert(ssign(-rd) == -ssign(rd));
    if spec_path_clear(mb, m) {
        assert forall|k: int|
            1 <= k < n implies (#[trigger] spec_at(
            b,
            m2.from.file + k * ssign(fd),
            m2.from.rank + k * ssign(-rd),
        )) is None by {
            assert(spec_at(mb, m.from.file + k * ssign(fd), m.from.rank + k * ssign(rd)) is None);
            lemma_mirror_at(b, m.from.file + k * ssign(fd), m.from.rank + k * ssign(rd));
            assert(m2.from.rank + k * ssign(-rd) == 9 - (m.from.rank + k * ssign(rd)));
        }
    }
    if spec_path_clear(b, m2) {
        assert forall|k: int|
            1 <= k < n implies (#[trigger] spec_at(
            mb,
            m.from.file + k * ssign(fd),
            m.from.rank + k * ssign(rd),
        )) is None by {
            assert(spec_at(b, m2.from.file + k * ssign(fd), m2.from.rank + k * ssign(-rd))
                is None);
            lemma_mirror_at(b, m.from.file + k * ssign(fd), m.from.rank + k * ssign(rd));
            assert(m2.from.rank + k * ssign(-rd) == 9 - (m.from.rank + k * ssign(rd)));
        }
    }
}

/// The movement rules are blind to which side is which: a move is valid on
/// the mirrored board exactly when its reflection is valid on the original.
pub proof fn lemma_mirror_is_valid(b: BoardModel, m: Move)
    requires
        b.wf(),
        pos_valid(m.from),
        pos_valid(m.to),
    ensures
        spec_is_valid(spec_mirror(b), m) == spec_is_valid(b, spec_mirror_move(m)),
{
    let mb = spec_mirror(b);
    let m2 = spec_mirror_move(m);
    lemma_mirror_at(b, m.from.file as int, m.from.rank as int);
    lemma_mirror_at(b, m.to.file as int, m.to.rank as int);
    assert(m2.from.file as int == m.from.file as int && m2.from.rank as int == 9
        - m.from.rank as int);
    assert(m2.to.file as int == m.to.file as int && m2.to.rank as int == 9 - m.to.rank as int);
    match spec_at(b, m2.from.file as int, m2.from.rank as int) {
        None => {
            assert(spec_at(mb, m.from.file as int, m.from.rank as int) is None);
        },
        Some(q) => {
            let qm = spec_flip_piece(q);
            assert(spec_at(mb, m.from.file as int, m.from.rank as int) == Some(qm));
            lemma_mirror_path_clear(b, m);
            lemma_mirror_movement(b, m, q);
        },
    }
}

/// The per-kind movement rule under mirroring, for the piece `q` standing
/// on the reflected source square of the original board.
proof fn lemma_mirror_movement(b: BoardModel, m: Move, q: Piece)
    requires
        b.wf(),
        pos_valid(m.from),
        pos_valid(m.to),
        spec_at(b, spec_mirror_move(m).from.file as int, spec_mirror_move(m).from.rank as int)
            == Some(q),
    ensures
        spec_movement_ok(spec_mirror(b), m, spec_flip_piece(q)) == spec_movement_ok(
            b,
            spec_mirror_move(m),
            q,
        ),
{
    let mb = spec_mirror(b);
    let m2 = spec_mirror_move(m);
    lemma_mirror_path_clear(b, m);
    match q.piece_type {
        crate::piece::PieceType::Pawn => {
            lemma_mirror_pawn(b, m, q.color);
        },
        _ => {
            assert(m2.to.rank - m2.from.rank == -(m.to.rank - m.from.rank));
        },
    }
}

/// The pawn rule under mirroring: the direction of travel, the home rank,
/// the capture squares and the en-passant conditions all reflect.
#[verifier::rlimit(100)]
proof fn lemma_mirror_pawn(b: BoardModel, m: Move, c: Color)
    requires
        b.wf(),
        pos_valid(m.from),
        pos_valid(m.to),
    ensures
        spec_pawn_ok(spec_mirror(b), m, crate::piece::spec_opposite(c)) == spec_pawn_ok(
            b,
            spec_mirror_move(m),
            c,
        ),
{
    let mb = spec_mirror(b);
    let m2 = spec_mirror_move(m);
    lemma_mirror_at(b, m.to.file as int, m.to.rank as int);
    lemma_mirror_at(b, m.from.file as int, m.from.rank as int + (if crate::piece::spec_opposite(c)
        == Color::White {
        1int
    } else {
        -1int
    }));
    lemma_mirror_ep(b, m, c);
}

/// The en-passant clause under mirroring.
#[verifier::rlimit(100)]
proof fn lemma_mirror_ep(b: BoardModel, m: Move, c: Color)
    requires
        b.wf(),
        pos_valid(m.from),
        pos_valid(m.to),
    ensures
        spec_en_passant_ok(spec_mirror(b), m, crate::piece::spec_opposite(c))
            == spec_en_passant_ok(b, spec_mirror_move(m), c),
{
    let mb = spec_mirror(b);
    let m2 = spec_mirror_move(m);
    match b.last_move {
        Some(lm) => {
            assert(mb.last_move == Some(spec_mirror_move(lm)));
            lemma_mirror_at(b, lm.to.file as int, lm.to.rank as int);
            assert(spec_mirror_move(lm).to.rank as int == 9 - lm.to.rank as int);
            assert(spec_mirror_move(lm).from.rank as int == 9 - lm.from.rank as int);
        },
        None => {
            assert(mb.last_move is None);
        },
    }
}

/// Builds the mirrored board.
pub fn mirror_sides(board: &Board) -> (r: Board)
    requires
        board@.wf(),
    ensures
        r@ == spec_mirror(board@),
        r@.wf(),
{
    let mut squares: Vec<Option<Piece>> = Vec::new();
    let mut i: usize = 0;
    while i < 64
        invariant
            board@.wf(),
            i <= 64,
            squares@.len() == i,
            forall|j: int|
                0 <= j < i ==> squares@[j] == spec_flip_opt(
                    board@.squares[8 * (7 - j / 8) + j % 8],
                ),
        decreases 64 - i,
    {
        let src: usize = 8 * (7 - i / 8) + i % 8;
        let flipped: Option<Piece> = match read_square(board, src) {
            Some(p) => Some(
                Piece {
                    piece_type: p.piece_type,
                    color: match p.color {
                        Color::White => Color::Black,
                        Color::Black => Color::White,
                    },
                },
            ),
            None => None,
        };
        squares.push(flipped);
        i = i + 1;
    }
    let rights = CastlingRights {
        white_kingside: board.castling_rights.black_kingside,
        white_queenside: board.castling_rights.black_queenside,
        black_kingside: board.castling_rights.white_kingside,
        black_queenside: board.castling_rights.white_queenside,
    };
    let lm: Option<Move> = match board.last_move {
        Some(m) => Some(
            Move {
                from: Position { file: m.from.file, rank: 9 - m.from.rank },
                to: Position { file: m.to.file, rank: 9 - m.to.rank },
                move_type: m.move_type,
                promotion: m.promotion,
            },
        ),
        None => None,
    };
    let r = Board { squares, current_turn: board.current_turn, castling_rights: rights, last_move: lm };
    proof {
        assert(r@.squares =~= spec_mirror(board@).squares);
        assert(r@ =~= spec_mirror(board@));
        lemma_mirror_wf(board@);
    }
    r
}

/// Reads one slot of the board vector.
fn read_square(board: &Board, i: usize) -> (r: Option<Piece>)
    requires
        board@.wf(),
        i < 64,
    ensures
        r == board@.squares[i as int],
{
    board.squares[i]
}

} // verus!
