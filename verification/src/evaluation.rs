//! The static evaluator: a signed centipawn score from the side to move's
//! perspective, summing material with positional tables, mobility, pawn
//! structure, king safety and an endgame adjustment, with terminal
//! positions special-cased.
//!
//! Every term is a per-square quantity summed with [`crate::grid::board_sum`],
//! and each is proved to negate when the board's sides are mirrored; the
//! perspective symmetry of the whole evaluator follows.

use vstd::prelude::*;
use crate::position::Position;
use crate::piece::{Piece, PieceType, Color, spec_opposite};
use crate::moves::{Move, spec_is_valid};
use crate::board::{Board, BoardModel, spec_at, spec_plain_move, spec_in_check, spec_has_legal_move, spec_insufficient_material};
use crate::grid::{board_sum, file_sum, rank_sum};
use crate::mirror::{spec_mirror, spec_mirror_move, lemma_mirror_at, lemma_mirror_is_valid};

verus! {

/// A quantity credited to `c`: positive for White, negated for Black.
pub open spec fn spec_signed(c: Color, x: int) -> int {
    if c == Color::White {
        x
    } else {
        -x
    }
}

/// A rank counted from the side's own back rank: rank `r` as White sees
/// it, `9 - r` as Black sees it.
pub open spec fn spec_rel_rank(c: Color, r: int) -> int {
    if c == Color::White {
        r
    } else {
        9 - r
    }
}

/// Centipawn value of each piece kind.
pub open spec fn spec_mat_cp(t: PieceType) -> int {
    match t {
        PieceType::Pawn => 100,
        PieceType::Knight => 320,
        PieceType::Bishop => 330,
        PieceType::Rook => 500,
        PieceType::Queen => 900,
        PieceType::King => 0,
    }
}

/// A small positional table: a bonus by piece kind, file and relative
/// rank. The same table serves both colors through the relative rank.
pub open spec fn spec_pst(t: PieceType, f: int, rr: int) -> int {
    match t {
        PieceType::Pawn => (rr - 2) * 4 + (if 3 <= f <= 6 && 3 <= rr <= 6 {
            8int
        } else {
            0int
        }),
        PieceType::Knight => if 3 <= f <= 6 && 3 <= rr <= 6 {
            16int
        } else if f == 1 || f == 8 || rr == 1 || rr == 8 {
            -12int
        } else {
            0int
        },
        PieceType::Bishop => if 3 <= f <= 6 && 3 <= rr <= 6 {
            10int
        } else {
            0int
        },
        PieceType::Rook => if rr == 7 {
            12int
        } else {
            0int
        },
        PieceType::Queen => 0int,
        PieceType::King => if rr == 1 && (f <= 3 || f >= 7) {
            10int
        } else {
            0int
        },
    }
}

/// Material contribution of one square: the piece's centipawn value,
/// credited to its side.
pub open spec fn spec_mat_term(b: BoardModel, f: int, r: int) -> int {
    match spec_at(b, f, r) {
        Some(p) => spec_signed(p.color, spec_mat_cp(p.piece_type)),
        None => 0,
    }
}

pub open spec fn spec_mat_fn(b: BoardModel) -> spec_fn(int, int) -> int {
    |f: int, r: int| spec_mat_term(b, f, r)
}

/// Positional-table contribution of one square.
pub open spec fn spec_pst_term(b: BoardModel, f: int, r: int) -> int {
    match spec_at(b, f, r) {
        Some(p) => spec_signed(p.color, spec_pst(p.piece_type, f, spec_rel_rank(p.color, r))),
        None => 0,
    }
}

pub open spec fn spec_pst_fn(b: BoardModel) -> spec_fn(int, int) -> int {
    |f: int, r: int| spec_pst_term(b, f, r)
}

/// Counts one destination square of a piece's mobility.
pub open spec fn spec_dest_fn(b: BoardModel, f: int, r: int) -> spec_fn(int, int) -> int {
    |tf: int, tr: int|
        if spec_is_valid(b, spec_plain_move(f, r, tf, tr)) {
            1int
        } else {
            0int
        }
}

/// How many squares the piece on (`f`, `r`) could move to by the movement
/// rules alone.
pub open spec fn spec_move_count(b: BoardModel, f: int, r: int) -> int {
    board_sum(spec_dest_fn(b, f, r))
}

/// Mobility weight of each piece kind.
pub open spec fn spec_mob_weight(t: PieceType) -> int {
    match t {
        PieceType::Pawn => 3,
        PieceType::Knight => 5,
        PieceType::Bishop => 5,
        PieceType::Rook => 4,
        PieceType::Queen => 2,
        PieceType::King => 1,
    }
}

/// Mobility contribution of one square.
pub open spec fn spec_mob_term(b: BoardModel, f: int, r: int) -> int {
    match spec_at(b, f, r) {
        Some(p) => spec_signed(
            p.color,
            spec_mob_weight(p.piece_type) * spec_move_count(b, f, r),
        ),
        None => 0,
    }
}

pub open spec fn spec_mob_fn(b: BoardModel) -> spec_fn(int, int) -> int {
    |f: int, r: int| spec_mob_term(b, f, r)
}

/// A pawn of `c` stands on square (`f`, `r`).
pub open spec fn spec_pawn_at(b: BoardModel, c: Color, f: int, r: int) -> bool {
    spec_at(b, f, r) == Some(Piece { piece_type: PieceType::Pawn, color: c })
}

/// Another pawn of the same color stands on the same file nearer its own
/// back rank; this pawn then counts as doubled.
pub open spec fn spec_doubled(b: BoardModel, c: Color, f: int, r: int) -> bool {
    exists|r2: int|
        1 <= r2 <= 8 && r2 != r && #[trigger] spec_pawn_at(b, c, f, r2) && spec_rel_rank(c, r2)
            < spec_rel_rank(c, r)
}

/// Some pawn of `c` stands on file `f`.
pub open spec fn spec_pawn_on_file(b: BoardModel, c: Color, f: int) -> bool {
    exists|r2: int| 1 <= r2 <= 8 && #[trigger] spec_pawn_at(b, c, f, r2)
}

/// No friendly pawn stands on either neighboring file.
pub open spec fn spec_isolated(b: BoardModel, c: Color, f: int) -> bool {
    !spec_pawn_on_file(b, c, f - 1) && !spec_pawn_on_file(b, c, f + 1)
}

/// An enemy pawn ahead on this file or a neighboring one bars the way.
pub open spec fn spec_enemy_pawn_ahead(b: BoardModel, c: Color, f: int, r: int) -> bool {
    exists|f2: int, r2: int|
        f - 1 <= f2 <= f + 1 && 1 <= f2 <= 8 && 1 <= r2 <= 8 && #[trigger] spec_pawn_at(
            b,
            spec_opposite(c),
            f2,
            r2,
        ) && spec_rel_rank(c, r2) > spec_rel_rank(c, r)
}

/// A friendly pawn stands on a neighboring file within one rank.
pub open spec fn spec_connected(b: BoardModel, c: Color, f: int, r: int) -> bool {
    exists|f2: int, r2: int|
        (f2 == f - 1 || f2 == f + 1) && 1 <= f2 <= 8 && 1 <= r2 <= 8 && #[trigger] spec_pawn_at(
            b,
            c,
            f2,
            r2,
        ) && -1 <= r2 - r <= 1
}

/// Structure score of one pawn: doubled and isolated pawns are penalized,
/// passed and connected pawns rewarded.
pub open spec fn spec_pawn_score(b: BoardModel, c: Color, f: int, r: int) -> int {
    (if spec_doubled(b, c, f, r) {
        -10int
    } else {
        0int
    }) + (if spec_isolated(b, c, f) {
        -20int
    } else {
        0int
    }) + (if !spec_enemy_pawn_ahead(b, c, f, r) {
        30int
    } else {
        0int
    }) + (if spec_connected(b, c, f, r) {
        8int
    } else {
        0int
    })
}

/// Pawn-structure contribution of one square.
pub open spec fn spec_pawn_term(b: BoardModel, f: int, r: int) -> int {
    match spec_at(b, f, r) {
        Some(p) => if p.piece_type == PieceType::Pawn {
            spec_signed(p.color, spec_pawn_score(b, p.color, f, r))
        } else {
            0
        },
        None => 0,
    }
}

pub open spec fn spec_pawn_fn(b: BoardModel) -> spec_fn(int, int) -> int {
    |f: int, r: int| spec_pawn_term(b, f, r)
}

/// Counts a friendly piece on one square.
pub open spec fn spec_friend_ind(b: BoardModel, f: int, r: int, c: Color) -> int {
    match spec_at(b, f, r) {
        Some(p) => if p.color == c {
            1int
        } else {
            0int
        },
        None => 0,
    }
}

/// Friendly pieces on the eight squares around (`f`, `r`).
pub open spec fn spec_defenders(b: BoardModel, f: int, r: int, c: Color) -> int {
    spec_friend_ind(b, f - 1, r - 1, c) + spec_friend_ind(b, f, r - 1, c) + spec_friend_ind(
        b,
        f + 1,
        r - 1,
        c,
    ) + spec_friend_ind(b, f - 1, r, c) + spec_friend_ind(b, f + 1, r, c) + spec_friend_ind(
        b,
        f - 1,
        r + 1,
        c,
    ) + spec_friend_ind(b, f, r + 1, c) + spec_friend_ind(b, f + 1, r + 1, c)
}

/// Counts a friendly pawn on one square.
pub open spec fn spec_pawn_ind(b: BoardModel, f: int, r: int, c: Color) -> int {
    if spec_pawn_at(b, c, f, r) {
        1int
    } else {
        0int
    }
}

/// The side's forward direction: up the board for White.
pub open spec fn spec_dir(c: Color) -> int {
    if c == Color::White {
        1int
    } else {
        -1int
    }
}

/// Friendly pawns shielding the king from the front.
pub open spec fn spec_shield(b: BoardModel, f: int, r: int, c: Color) -> int {
    spec_pawn_ind(b, f - 1, r + spec_dir(c), c) + spec_pawn_ind(b, f, r + spec_dir(c), c)
        + spec_pawn_ind(b, f + 1, r + spec_dir(c), c)
}

/// Counts a piece of kind `t` (either color) on one square.
pub open spec fn spec_kind_ind(b: BoardModel, f: int, r: int, t: PieceType) -> int {
    match spec_at(b, f, r) {
        Some(p) => if p.piece_type == t {
            1int
        } else {
            0int
        },
        None => 0,
    }
}

pub open spec fn spec_kind_fn(b: BoardModel, t: PieceType) -> spec_fn(int, int) -> int {
    |f: int, r: int| spec_kind_ind(b, f, r, t)
}

/// How many pieces of kind `t` stand on the board, both colors together.
pub open spec fn spec_count_kind(b: BoardModel, t: PieceType) -> int {
    board_sum(spec_kind_fn(b, t))
}

/// The endgame has begun: the queens are gone, or little besides them is
/// left.
pub open spec fn spec_is_endgame(b: BoardModel) -> bool {
    let queens = spec_count_kind(b, PieceType::Queen);
    let minors = spec_count_kind(b, PieceType::Rook) + spec_count_kind(b, PieceType::Bishop)
        + spec_count_kind(b, PieceType::Knight);
    queens == 0 || (queens <= 2 && minors <= 2)
}

/// King-safety contribution of one square: defenders beside the king and
/// pawns in front of it, weighted down once the endgame has begun.
pub open spec fn spec_ks_term(b: BoardModel, f: int, r: int) -> int {
    match spec_at(b, f, r) {
        Some(p) => if p.piece_type == PieceType::King {
            spec_signed(
                p.color,
                if spec_is_endgame(b) {
                    spec_defenders(b, f, r, p.color) * 4 + spec_shield(b, f, r, p.color) * 7
                } else {
                    3 * (spec_defenders(b, f, r, p.color) * 4 + spec_shield(b, f, r, p.color) * 7)
                },
            )
        } else {
            0
        },
        None => 0,
    }
}

pub open spec fn spec_ks_fn(b: BoardModel) -> spec_fn(int, int) -> int {
    |f: int, r: int| spec_ks_term(b, f, r)
}

/// Steps from the four center squares, by coordinate.
pub open spec fn spec_center_dist(f: int, r: int) -> int {
    (if f <= 4 {
        4 - f
    } else {
        f - 5
    }) + (if r <= 4 {
        4 - r
    } else {
        r - 5
    })
}

/// Endgame adjustment of one square: once the endgame has begun, a king
/// near the board's edge counts against its own side, which rewards
/// driving the opponent's king outward.
pub open spec fn spec_eg_term(b: BoardModel, f: int, r: int) -> int {
    if spec_is_endgame(b) {
        match spec_at(b, f, r) {
            Some(p) => if p.piece_type == PieceType::King {
                spec_signed(spec_opposite(p.color), spec_center_dist(f, r) * 12)
            } else {
                0
            },
            None => 0,
        }
    } else {
        0
    }
}

pub open spec fn spec_eg_fn(b: BoardModel) -> spec_fn(int, int) -> int {
    |f: int, r: int| spec_eg_term(b, f, r)
}

/// Counts a bishop of `c` on one square.
pub open spec fn spec_bishop_fn(b: BoardModel, c: Color) -> spec_fn(int, int) -> int {
    |f: int, r: int|
        if spec_at(b, f, r) == Some(Piece { piece_type: PieceType::Bishop, color: c }) {
            1int
        } else {
            0int
        }
}

pub open spec fn spec_count_bishops(b: BoardModel, c: Color) -> int {
    board_sum(spec_bishop_fn(b, c))
}

/// Owning both bishops is worth a bonus.
pub open spec fn spec_bishop_pair_term(b: BoardModel) -> int {
    (if spec_count_bishops(b, Color::White) >= 2 {
        30int
    } else {
        0int
    }) - (if spec_count_bishops(b, Color::Black) >= 2 {
        30int
    } else {
        0int
    })
}

/// The white-centric sum of every evaluation term.
pub open spec fn spec_eval_white(b: BoardModel) -> int {
    board_sum(spec_mat_fn(b)) + board_sum(spec_pst_fn(b)) + board_sum(spec_mob_fn(b)) + board_sum(
        spec_pawn_fn(b),
    ) + board_sum(spec_ks_fn(b)) + board_sum(spec_eg_fn(b)) + spec_bishop_pair_term(b)
}

/// Clamps an integer into a closed interval.
pub open spec fn spec_clamp(x: int, lo: int, hi: int) -> int {
    if x < lo {
        lo
    } else if x > hi {
        hi
    } else {
        x
    }
}

/// The non-terminal evaluation: the white-centric sum, clamped well below
/// the mate scores, seen from the side to move.
pub open spec fn spec_eval_static(b: BoardModel) -> int {
    spec_signed(b.current_turn, spec_clamp(spec_eval_white(b), -15000, 15000))
}

/// The score the evaluator assigns to a checkmated side to move.
pub open spec fn spec_mate_eval() -> int {
    -19500
}

/// The full evaluation: checkmate is a large negative score for the side
/// to move, stalemate and insufficient material are exactly zero, and any
/// other position gets the static sum.
pub open spec fn spec_evaluate(b: BoardModel) -> int {
    if !spec_has_legal_move(b) {
        if spec_in_check(b, b.current_turn) {
            spec_mate_eval()
        } else {
            0
        }
    } else if spec_insufficient_material(b) {
        0
    } else {
        spec_eval_static(b)
    }
}

/// Material value of one square.
fn mat_term(board: &Board, f: u8, r: u8) -> (res: i32)
    requires
        board@.wf(),
        1 <= f <= 8,
        1 <= r <= 8,
    ensures
        res as int == spec_mat_term(board@, f as int, r as int),
        -900 <= res <= 900,
{
    match board.get_piece(Position { file: f, rank: r }) {
        Some(p) => {
            let cp: i32 = match p.piece_type {
                PieceType::Pawn => 100,
                PieceType::Knight => 320,
                PieceType::Bishop => 330,
                PieceType::Rook => 500,
                PieceType::Queen => 900,
                PieceType::King => 0,
            };
            if p.color == Color::White {
                cp
            } else {
                -cp
            }
        },
        None => 0,
    }
}

/// Positional-table value of one square.
fn pst_term(board: &Board, f: u8, r: u8) -> (res: i32)
    requires
        board@.wf(),
        1 <= f <= 8,
        1 <= r <= 8,
    ensures
        res as int == spec_pst_term(board@, f as int, r as int),
        -40 <= res <= 40,
{
    match board.get_piece(Position { file: f, rank: r }) {
        Some(p) => {
            let rr: i32 = if p.color == Color::White {
                r as i32
            } else {
                9 - (r as i32)
            };
            let fi = f as i32;
            let pst: i32 = match p.piece_type {
                PieceType::Pawn => (rr - 2) * 4 + (if 3 <= fi && fi <= 6 && 3 <= rr && rr <= 6 {
                    8
                } else {
                    0
                }),
                PieceType::Knight => if 3 <= fi && fi <= 6 && 3 <= rr && rr <= 6 {
                    16
                } else if fi == 1 || fi == 8 || rr == 1 || rr == 8 {
                    -12
                } else {
                    0
                },
                PieceType::Bishop => if 3 <= fi && fi <= 6 && 3 <= rr && rr <= 6 {
                    10
                } else {
                    0
                },
                PieceType::Rook => if rr == 7 {
                    12
                } else {
                    0
                },
                PieceType::Queen => 0,
                PieceType::King => if rr == 1 && (fi <= 3 || fi >= 7) {
                    10
                } else {
                    0
                },
            };
            if p.color == Color::White {
                pst
            } else {
                -pst
            }
        },
        None => 0,
    }
}

/// Sums material over the board: the value of White's pieces minus the
/// value of Black's.
#[verifier::loop_isolation(false)]
fn evaluate_material(board: &Board) -> (res: i32)
    requires
        board@.wf(),
    ensures
        res as int == board_sum(spec_mat_fn(board@)),
        -57600 <= res <= 57600,
{
    let ghost t = spec_mat_fn(board@);
    let mut acc: i32 = 0;
    let mut r: u8 = 1;
    while r <= 8
        invariant
            1 <= r <= 9,
            acc as int == rank_sum(t, r - 1),
            -7200 * (r - 1) <= acc as int <= 7200 * (r - 1),
        decreases 9 - r,
    {
        let ghost acc0 = acc as int;
        let mut f: u8 = 1;
        while f <= 8
            invariant
                1 <= f <= 9,
                1 <= r <= 8,
                acc0 == rank_sum(t, r - 1),
                -7200 * (r - 1) <= acc0 <= 7200 * (r - 1),
                acc as int == acc0 + file_sum(t, r as int, f - 1),
                acc0 - 900 * (f - 1) <= acc as int <= acc0 + 900 * (f - 1),
            decreases 9 - f,
        {
            let v = mat_term(board, f, r);
            proof {
                assert(t(f as int, r as int) == spec_mat_term(board@, f as int, r as int));
                assert(file_sum(t, r as int, f as int) == file_sum(t, r as int, f - 1) + t(
                    f as int,
                    r as int,
                ));
            }
            acc = acc + v;
            f = f + 1;
        }
        proof {
            assert(rank_sum(t, r as int) == rank_sum(t, r - 1) + file_sum(t, r as int, 8));
        }
        r = r + 1;
    }
    acc
}

/// Sums the positional tables over the board, White minus Black.
#[verifier::loop_isolation(false)]
fn evaluate_piece_tables(board: &Board) -> (res: i32)
    requires
        board@.wf(),
    ensures
        res as int == board_sum(spec_pst_fn(board@)),
        -2560 <= res <= 2560,
{
    let ghost t = spec_pst_fn(board@);
    let mut acc: i32 = 0;
    let mut r: u8 = 1;
    while r <= 8
        invariant
            1 <= r <= 9,
            acc as int == rank_sum(t, r - 1),
            -320 * (r - 1) <= acc as int <= 320 * (r - 1),
        decreases 9 - r,
    {
        let ghost acc0 = acc as int;
        let mut f: u8 = 1;
        while f <= 8
            invariant
                1 <= f <= 9,
                1 <= r <= 8,
                acc0 == rank_sum(t, r - 1),
                -320 * (r - 1) <= acc0 <= 320 * (r - 1),
                acc as int == acc0 + file_sum(t, r as int, f - 1),
                acc0 - 40 * (f - 1) <= acc as int <= acc0 + 40 * (f - 1),
            decreases 9 - f,
        {
            let v = pst_term(board, f, r);
            proof {
                assert(t(f as int, r as int) == spec_pst_term(board@, f as int, r as int));
                assert(file_sum(t, r as int, f as int) == file_sum(t, r as int, f - 1) + t(
                    f as int,
                    r as int,
                ));
            }
            acc = acc + v;
            f = f + 1;
        }
        proof {
            assert(rank_sum(t, r as int) == rank_sum(t, r - 1) + file_sum(t, r as int, 8));
        }
        r = r + 1;
    }
    acc
}

/// Counts the destination squares the piece on (`f`, `r`) may move to.
#[verifier::loop_isolation(false)]
fn move_count(board: &Board, f: u8, r: u8) -> (cnt: i32)
    requires
        board@.wf(),
        1 <= f <= 8,
        1 <= r <= 8,
    ensures
        cnt as int == spec_move_count(board@, f as int, r as int),
        0 <= cnt <= 64,
{
    let ghost t = spec_dest_fn(board@, f as int, r as int);
    let mut acc: i32 = 0;
    let mut tr: u8 = 1;
    while tr <= 8
        invariant
            1 <= tr <= 9,
            acc as int == rank_sum(t, tr - 1),
            0 <= acc as int <= 8 * (tr - 1),
        decreases 9 - tr,
    {
        let ghost acc0 = acc as int;
        let mut tf: u8 = 1;
        while tf <= 8
            invariant
                1 <= tf <= 9,
                1 <= tr <= 8,
                acc0 == rank_sum(t, tr - 1),
                0 <= acc0 <= 8 * (tr - 1),
                acc as int == acc0 + file_sum(t, tr as int, tf - 1),
                acc0 <= acc as int <= acc0 + (tf - 1),
            decreases 9 - tf,
        {
            let mv = Move::new(Position { file: f, rank: r }, Position { file: tf, rank: tr });
            let v: i32 = if mv.is_valid(board) {
                1
            } else {
                0
            };
            proof {
                assert(mv == spec_plain_move(f as int, r as int, tf as int, tr as int));
                assert(t(tf as int, tr as int) == (if spec_is_valid(
                    board@,
                    spec_plain_move(f as int, r as int, tf as int, tr as int),
                ) {
                    1int
                } else {
                    0int
                }));
                assert(file_sum(t, tr as int, tf as int) == file_sum(t, tr as int, tf - 1) + t(
                    tf as int,
                    tr as int,
                ));
            }
            acc = acc + v;
            tf = tf + 1;
        }
        proof {
            assert(rank_sum(t, tr as int) == rank_sum(t, tr - 1) + file_sum(t, tr as int, 8));
        }
        tr = tr + 1;
    }
    acc
}

/// Mobility value of one square.
fn mob_term(board: &Board, f: u8, r: u8) -> (res: i32)
    requires
        board@.wf(),
        1 <= f <= 8,
        1 <= r <= 8,
    ensures
        res as int == spec_mob_term(board@, f as int, r as int),
        -320 <= res <= 320,
{
    match board.get_piece(Position { file: f, rank: r }) {
        Some(p) => {
            let w: i32 = match p.piece_type {
                PieceType::Pawn => 3,
                PieceType::Knight => 5,
                PieceType::Bishop => 5,
                PieceType::Rook => 4,
                PieceType::Queen => 2,
                PieceType::King => 1,
            };
            let cnt = move_count(board, f, r);
            proof {
                assert(0 <= w * cnt <= 320) by (nonlinear_arith)
                    requires
                        1 <= w <= 5 && 0 <= cnt <= 64,
                ;
            }
            let base = w * cnt;
            if p.color == Color::White {
                base
            } else {
                -base
            }
        },
        None => 0,
    }
}

/// Sums weighted mobility over the board, White minus Black.
#[verifier::loop_isolation(false)]
fn evaluate_mobility(board: &Board) -> (res: i32)
    requires
        board@.wf(),
    ensures
        res as int == board_sum(spec_mob_fn(board@)),
        -20480 <= res <= 20480,
{
    let ghost t = spec_mob_fn(board@);
    let mut acc: i32 = 0;
    let mut r: u8 = 1;
    while r <= 8
        invariant
            1 <= r <= 9,
            acc as int == rank_sum(t, r - 1),
            -2560 * (r - 1) <= acc as int <= 2560 * (r - 1),
        decreases 9 - r,
    {
        let ghost acc0 = acc as int;
        let mut f: u8 = 1;
        while f <= 8
            invariant
                1 <= f <= 9,
                1 <= r <= 8,
                acc0 == rank_sum(t, r - 1),
                -2560 * (r - 1) <= acc0 <= 2560 * (r - 1),
                acc as int == acc0 + file_sum(t, r as int, f - 1),
                acc0 - 320 * (f - 1) <= acc as int <= acc0 + 320 * (f - 1),
            decreases 9 - f,
        {
            let v = mob_term(board, f, r);
            proof {
                assert(t(f as int, r as int) == spec_mob_term(board@, f as int, r as int));
                assert(file_sum(t, r as int, f as int) == file_sum(t, r as int, f - 1) + t(
                    f as int,
                    r as int,
                ));
            }
            acc = acc + v;
            f = f + 1;
        }
        proof {
            assert(rank_sum(t, r as int) == rank_sum(t, r - 1) + file_sum(t, r as int, 8));
        }
        r = r + 1;
    }
    acc
}

/// Whether the pawn on (`f`, `r`) has a friendly pawn behind it on the
/// same file.
#[verifier::loop_isolation(false)]
fn pawn_doubled(board: &Board, c: Color, f: u8, r: u8) -> (res: bool)
    requires
        board@.wf(),
        1 <= f <= 8,
        1 <= r <= 8,
    ensures
        res == spec_doubled(board@, c, f as int, r as int),
{
    let mut r2: u8 = 1;
    while r2 <= 8
        invariant
            1 <= r2 <= 9,
            forall|x: int|
                1 <= x < r2 ==> !(x != r && #[trigger] spec_pawn_at(board@, c, f as int, x)
                    && spec_rel_rank(c, x) < spec_rel_rank(c, r as int)),
        decreases 9 - r2,
    {
        if r2 != r {
            let rel2: i32 = if c == Color::White {
                r2 as i32
            } else {
                9 - (r2 as i32)
            };
            let rel: i32 = if c == Color::White {
                r as i32
            } else {
                9 - (r as i32)
            };
            if rel2 < rel {
                if let Some(p) = board.get_piece(Position { file: f, rank: r2 }) {
                    if p.piece_type == PieceType::Pawn && p.color == c {
                        proof {
                            assert(spec_pawn_at(board@, c, f as int, r2 as int));
                        }
                        return true;
                    }
                }
            }
        }
        r2 = r2 + 1;
    }
    false
}

/// Whether a pawn of `c` stands anywhere on file `f`; false off the board.
#[verifier::loop_isolation(false)]
fn pawn_on_file(board: &Board, c: Color, f: i32) -> (res: bool)
    requires
        board@.wf(),
    ensures
        res == spec_pawn_on_file(board@, c, f as int),
{
    if f < 1 || f > 8 {
        return false;
    }
    let mut r2: u8 = 1;
    while r2 <= 8
        invariant
            1 <= r2 <= 9,
            1 <= f <= 8,
            forall|x: int| 1 <= x < r2 ==> !(#[trigger] spec_pawn_at(board@, c, f as int, x)),
        decreases 9 - r2,
    {
        if let Some(p) = board.get_piece(Position { file: f as u8, rank: r2 }) {
            if p.piece_type == PieceType::Pawn && p.color == c {
                proof {
                    assert(spec_pawn_at(board@, c, f as int, r2 as int));
                }
                return true;
            }
        }
        r2 = r2 + 1;
    }
    false
}

/// Whether an enemy pawn stands ahead of (`f`, `r`) on this or a
/// neighboring file.
#[verifier::loop_isolation(false)]
fn pawn_enemy_ahead(board: &Board, c: Color, f: u8, r: u8) -> (res: bool)
    requires
        board@.wf(),
        1 <= f <= 8,
        1 <= r <= 8,
    ensures
        res == spec_enemy_pawn_ahead(board@, c, f as int, r as int),
{
    let enemy = c.opposite();
    let mut r2: u8 = 1;
    while r2 <= 8
        invariant
            1 <= r2 <= 9,
            enemy == spec_opposite(c),
            forall|f2: int, x: int|
                1 <= x < r2 && f - 1 <= f2 <= f + 1 && 1 <= f2 <= 8 ==> !(#[trigger] spec_pawn_at(
                    board@,
                    spec_opposite(c),
                    f2,
                    x,
                ) && spec_rel_rank(c, x) > spec_rel_rank(c, r as int)),
        decreases 9 - r2,
    {
        let rel2: i32 = if c == Color::White {
            r2 as i32
        } else {
            9 - (r2 as i32)
        };
        let rel: i32 = if c == Color::White {
            r as i32
        } else {
            9 - (r as i32)
        };
        if rel2 > rel {
            let mut f2: i32 = (f as i32) - 1;
            while f2 <= (f as i32) + 1
                invariant
                    f - 1 <= f2 <= f + 2,
                    1 <= r2 <= 8,
                    enemy == spec_opposite(c),
                    spec_rel_rank(c, r2 as int) > spec_rel_rank(c, r as int),
                    forall|x: int|
                        f - 1 <= x < f2 && 1 <= x <= 8 ==> !(#[trigger] spec_pawn_at(
                            board@,
                            spec_opposite(c),
                            x,
                            r2 as int,
                        )),
                decreases (f as int) + 2 - f2,
            {
                if 1 <= f2 && f2 <= 8 {
                    if let Some(p) = board.get_piece(Position { file: f2 as u8, rank: r2 }) {
                        if p.piece_type == PieceType::Pawn && p.color == enemy {
                            proof {
                                assert(spec_pawn_at(board@, spec_opposite(c), f2 as int,
                                r2 as int));
                            }
                            return true;
                        }
                    }
                }
                f2 = f2 + 1;
            }
        }
        r2 = r2 + 1;
    }
    false
}

/// Whether the pawn on (`f`, `r`) has a friendly pawn on a neighboring
/// file within one rank.
#[verifier::loop_isolation(false)]
fn pawn_connected(board: &Board, c: Color, f: u8, r: u8) -> (res: bool)
    requires
        board@.wf(),
        1 <= f <= 8,
        1 <= r <= 8,
    ensures
        res == spec_connected(board@, c, f as int, r as int),
{
    let mut found = false;
    let mut df: i32 = -1;
    while df <= 1
        invariant
            -1 <= df <= 2,
            found == exists|f2: int, r2: int|
                (f2 == f - 1 || f2 == f + 1) && 1 <= f2 <= 8 && 1 <= r2 <= 8 && f2 < f + df
                    && #[trigger] spec_pawn_at(board@, c, f2, r2) && -1 <= r2 - r <= 1,
        decreases 2 - df,
    {
        if df != 0 {
            let f2: i32 = (f as i32) + df;
            if 1 <= f2 && f2 <= 8 {
                let mut dr: i32 = -1;
                while dr <= 1
                    invariant
                        -1 <= dr <= 2,
                        1 <= f2 <= 8,
                        f2 == f + df,
                        df == -1 || df == 1,
                        found == exists|g2: int, r2: int|
                            (g2 == f - 1 || g2 == f + 1) && 1 <= g2 <= 8 && 1 <= r2 <= 8 && (g2 < f
                                + df || (g2 == f2 && r2 - r < dr)) && #[trigger] spec_pawn_at(
                                board@,
                                c,
                                g2,
                                r2,
                            ) && -1 <= r2 - r <= 1,
                    decreases 2 - dr,
                {
                    let r2: i32 = (r as i32) + dr;
                    if 1 <= r2 && r2 <= 8 {
                        if let Some(p) = board.get_piece(
                            Position { file: f2 as u8, rank: r2 as u8 },
                        ) {
                            if p.piece_type == PieceType::Pawn && p.color == c {
                                proof {
                                    assert(spec_pawn_at(board@, c, f2 as int, r2 as int));
                                }
                                found = true;
                            }
                        }
                    }
                    dr = dr + 1;
                }
            }
        }
        df = df + 1;
    }
    proof {
        if found {
            assert(spec_connected(board@, c, f as int, r as int));
        }
        if spec_connected(board@, c, f as int, r as int) {
            let (f2, r2) = choose|f2: int, r2: int|
                (f2 == f - 1 || f2 == f + 1) && 1 <= f2 <= 8 && 1 <= r2 <= 8 && #[trigger]
                    spec_pawn_at(board@, c, f2, r2) && -1 <= r2 - r <= 1;
            assert(f2 < f + 2);
        }
    }
    found
}

/// Pawn-structure value of one square.
fn pawn_term(board: &Board, f: u8, r: u8) -> (res: i32)
    requires
        board@.wf(),
        1 <= f <= 8,
        1 <= r <= 8,
    ensures
        res as int == spec_pawn_term(board@, f as int, r as int),
        -40 <= res <= 40,
{
    match board.get_piece(Position { file: f, rank: r }) {
        Some(p) => {
            if p.piece_type == PieceType::Pawn {
                let c = p.color;
                let mut score: i32 = 0;
                if pawn_doubled(board, c, f, r) {
                    score = score - 10;
                }
                if !pawn_on_file(board, c, (f as i32) - 1) && !pawn_on_file(
                    board,
                    c,
                    (f as i32) + 1,
                ) {
                    score = score - 20;
                }
                if !pawn_enemy_ahead(board, c, f, r) {
                    score = score + 30;
                }
                if pawn_connected(board, c, f, r) {
                    score = score + 8;
                }
                if c == Color::White {
                    score
                } else {
                    -score
                }
            } else {
                0
            }
        },
        None => 0,
    }
}

/// Sums pawn-structure values over the board, White minus Black.
#[verifier::loop_isolation(false)]
fn evaluate_pawn_structure(board: &Board) -> (res: i32)
    requires
        board@.wf(),
    ensures
        res as int == board_sum(spec_pawn_fn(board@)),
        -2560 <= res <= 2560,
{
    let ghost t = spec_pawn_fn(board@);
    let mut acc: i32 = 0;
    let mut r: u8 = 1;
    while r <= 8
        invariant
            1 <= r <= 9,
            acc as int == rank_sum(t, r - 1),
            -320 * (r - 1) <= acc as int <= 320 * (r - 1),
        decreases 9 - r,
    {
        let ghost acc0 = acc as int;
        let mut f: u8 = 1;
        while f <= 8
            invariant
                1 <= f <= 9,
                1 <= r <= 8,
                acc0 == rank_sum(t, r - 1),
                -320 * (r - 1) <= acc0 <= 320 * (r - 1),
                acc as int == acc0 + file_sum(t, r as int, f - 1),
                acc0 - 40 * (f - 1) <= acc as int <= acc0 + 40 * (f - 1),
            decreases 9 - f,
        {
            let v = pawn_term(board, f, r);
            proof {
                assert(t(f as int, r as int) == spec_pawn_term(board@, f as int, r as int));
                assert(file_sum(t, r as int, f as int) == file_sum(t, r as int, f - 1) + t(
                    f as int,
                    r as int,
                ));
            }
            acc = acc + v;
            f = f + 1;
        }
        proof {
            assert(rank_sum(t, r as int) == rank_sum(t, r - 1) + file_sum(t, r as int, 8));
        }
        r = r + 1;
    }
    acc
}

/// Counts the pieces of kind `t` on the board, both colors together.
#[verifier::loop_isolation(false)]
pub fn count_kind(board: &Board, kind: PieceType) -> (res: i32)
    requires
        board@.wf(),
    ensures
        res as int == spec_count_kind(board@, kind),
        0 <= res <= 64,
{
    let ghost t = spec_kind_fn(board@, kind);
    let mut acc: i32 = 0;
    let mut r: u8 = 1;
    while r <= 8
        invariant
            1 <= r <= 9,
            acc as int == rank_sum(t, r - 1),
            0 <= acc as int <= 8 * (r - 1),
        decreases 9 - r,
    {
        let ghost acc0 = acc as int;
        let mut f: u8 = 1;
        while f <= 8
            invariant
                1 <= f <= 9,
                1 <= r <= 8,
                acc0 == rank_sum(t, r - 1),
                0 <= acc0 <= 8 * (r - 1),
                acc as int == acc0 + file_sum(t, r as int, f - 1),
                acc0 <= acc as int <= acc0 + (f - 1),
            decreases 9 - f,
        {
            let v: i32 = match board.get_piece(Position { file: f, rank: r }) {
                Some(p) => if p.piece_type == kind {
                    1
                } else {
                    0
                },
                None => 0,
            };
            proof {
                assert(t(f as int, r as int) == spec_kind_ind(board@, f as int, r as int, kind));
                assert(file_sum(t, r as int, f as int) == file_sum(t, r as int, f - 1) + t(
                    f as int,
                    r as int,
                ));
            }
            acc = acc + v;
            f = f + 1;
        }
        proof {
            assert(rank_sum(t, r as int) == rank_sum(t, r - 1) + file_sum(t, r as int, 8));
        }
        r = r + 1;
    }
    acc
}

/// Whether the endgame has begun: the queens are gone, or little besides
/// them is left.
pub fn is_endgame_phase(board: &Board) -> (res: bool)
    requires
        board@.wf(),
    ensures
        res == spec_is_endgame(board@),
{
    let queens = count_kind(board, PieceType::Queen);
    let minors = count_kind(board, PieceType::Rook) + count_kind(board, PieceType::Bishop)
        + count_kind(board, PieceType::Knight);
    queens == 0 || (queens <= 2 && minors <= 2)
}

/// Counts a friendly piece on one square; zero off the board.
fn friend_ind(board: &Board, f: i32, r: i32, c: Color) -> (res: i32)
    requires
        board@.wf(),
    ensures
        res as int == spec_friend_ind(board@, f as int, r as int, c),
        0 <= res <= 1,
{
    if f < 1 || f > 8 || r < 1 || r > 8 {
        return 0;
    }
    match board.get_piece(Position { file: f as u8, rank: r as u8 }) {
        Some(p) => if p.color == c {
            1
        } else {
            0
        },
        None => 0,
    }
}

/// Counts a friendly pawn on one square; zero off the board.
fn pawn_ind(board: &Board, f: i32, r: i32, c: Color) -> (res: i32)
    requires
        board@.wf(),
    ensures
        res as int == spec_pawn_ind(board@, f as int, r as int, c),
        0 <= res <= 1,
{
    if f < 1 || f > 8 || r < 1 || r > 8 {
        return 0;
    }
    match board.get_piece(Position { file: f as u8, rank: r as u8 }) {
        Some(p) => if p.piece_type == PieceType::Pawn && p.color == c {
            1
        } else {
            0
        },
        None => 0,
    }
}

/// King-safety value of one square.
fn ks_term(board: &Board, f: u8, r: u8, endgame: bool) -> (res: i32)
    requires
        board@.wf(),
        1 <= f <= 8,
        1 <= r <= 8,
        endgame == spec_is_endgame(board@),
    ensures
        res as int == spec_ks_term(board@, f as int, r as int),
        -160 <= res <= 160,
{
    match board.get_piece(Position { file: f, rank: r }) {
        Some(p) => {
            if p.piece_type == PieceType::King {
                let c = p.color;
                let fi = f as i32;
                let ri = r as i32;
                let defenders = friend_ind(board, fi - 1, ri - 1, c) + friend_ind(
                    board,
                    fi,
                    ri - 1,
                    c,
                ) + friend_ind(board, fi + 1, ri - 1, c) + friend_ind(board, fi - 1, ri, c)
                    + friend_ind(board, fi + 1, ri, c) + friend_ind(board, fi - 1, ri + 1, c)
                    + friend_ind(board, fi, ri + 1, c) + friend_ind(board, fi + 1, ri + 1, c);
                let dir: i32 = if c == Color::White {
                    1
                } else {
                    -1
                };
                let shield = pawn_ind(board, fi - 1, ri + dir, c) + pawn_ind(board, fi, ri + dir, c)
                    + pawn_ind(board, fi + 1, ri + dir, c);
                let base: i32 = if endgame {
                    defenders * 4 + shield * 7
                } else {
                    3 * (defenders * 4 + shield * 7)
                };
                if c == Color::White {
                    base
                } else {
                    -base
                }
            } else {
                0
            }
        },
        None => 0,
    }
}

/// Sums king-safety values over the board, White minus Black.
#[verifier::loop_isolation(false)]
fn evaluate_king_safety(board: &Board, endgame: bool) -> (res: i32)
    requires
        board@.wf(),
        endgame == spec_is_endgame(board@),
    ensures
        res as int == board_sum(spec_ks_fn(board@)),
        -10240 <= res <= 10240,
{
    let ghost t = spec_ks_fn(board@);
    let mut acc: i32 = 0;
    let mut r: u8 = 1;
    while r <= 8
        invariant
            1 <= r <= 9,
            acc as int == rank_sum(t, r - 1),
            -1280 * (r - 1) <= acc as int <= 1280 * (r - 1),
        decreases 9 - r,
    {
        let ghost acc0 = acc as int;
        let mut f: u8 = 1;
        while f <= 8
            invariant
                1 <= f <= 9,
                1 <= r <= 8,
                acc0 == rank_sum(t, r - 1),
                -1280 * (r - 1) <= acc0 <= 1280 * (r - 1),
                acc as int == acc0 + file_sum(t, r as int, f - 1),
                acc0 - 160 * (f - 1) <= acc as int <= acc0 + 160 * (f - 1),
            decreases 9 - f,
        {
            let v = ks_term(board, f, r, endgame);
            proof {
                assert(t(f as int, r as int) == spec_ks_term(board@, f as int, r as int));
                assert(file_sum(t, r as int, f as int) == file_sum(t, r as int, f - 1) + t(
                    f as int,
                    r as int,
                ));
            }
            acc = acc + v;
            f = f + 1;
        }
        proof {
            assert(rank_sum(t, r as int) == rank_sum(t, r - 1) + file_sum(t, r as int, 8));
        }
        r = r + 1;
    }
    acc
}

/// Endgame adjustment of one square.
fn eg_term(board: &Board, f: u8, r: u8, endgame: bool) -> (res: i32)
    requires
        board@.wf(),
        1 <= f <= 8,
        1 <= r <= 8,
        endgame == spec_is_endgame(board@),
    ensures
        res as int == spec_eg_term(board@, f as int, r as int),
        -80 <= res <= 80,
{
    if !endgame {
        return 0;
    }
    match board.get_piece(Position { file: f, rank: r }) {
        Some(p) => {
            if p.piece_type == PieceType::King {
                let fi = f as i32;
                let ri = r as i32;
                let cd: i32 = (if fi <= 4 {
                    4 - fi
                } else {
                    fi - 5
                }) + (if ri <= 4 {
                    4 - ri
                } else {
                    ri - 5
                });
                if p.color == Color::White {
                    -(cd * 12)
                } else {
                    cd * 12
                }
            } else {
                0
            }
        },
        None => 0,
    }
}

/// Sums the endgame adjustment over the board, White minus Black.
#[verifier::loop_isolation(false)]
fn evaluate_endgame_drive(board: &Board, endgame: bool) -> (res: i32)
    requires
        board@.wf(),
        endgame == spec_is_endgame(board@),
    ensures
        res as int == board_sum(spec_eg_fn(board@)),
        -5120 <= res <= 5120,
{
    let ghost t = spec_eg_fn(board@);
    let mut acc: i32 = 0;
    let mut r: u8 = 1;
    while r <= 8
        invariant
            1 <= r <= 9,
            acc as int == rank_sum(t, r - 1),
            -640 * (r - 1) <= acc as int <= 640 * (r - 1),
        decreases 9 - r,
    {
        let ghost acc0 = acc as int;
        let mut f: u8 = 1;
        while f <= 8
            invariant
                1 <= f <= 9,
                1 <= r <= 8,
                acc0 == rank_sum(t, r - 1),
                -640 * (r - 1) <= acc0 <= 640 * (r - 1),
                acc as int == acc0 + file_sum(t, r as int, f - 1),
                acc0 - 80 * (f - 1) <= acc as int <= acc0 + 80 * (f - 1),
            decreases 9 - f,
        {
            let v = eg_term(board, f, r, endgame);
            proof {
                assert(t(f as int, r as int) == spec_eg_term(board@, f as int, r as int));
                assert(file_sum(t, r as int, f as int) == file_sum(t, r as int, f - 1) + t(
                    f as int,
                    r as int,
                ));
            }
            acc = acc + v;
            f = f + 1;
        }
        proof {
            assert(rank_sum(t, r as int) == rank_sum(t, r - 1) + file_sum(t, r as int, 8));
        }
        r = r + 1;
    }
    acc
}

/// Counts the bishops of one color.
#[verifier::loop_isolation(false)]
fn count_bishops(board: &Board, c: Color) -> (res: i32)
    requires
        board@.wf(),
    ensures
        res as int == spec_count_bishops(board@, c),
        0 <= res <= 64,
{
    let ghost t = spec_bishop_fn(board@, c);
    let mut acc: i32 = 0;
    let mut r: u8 = 1;
    while r <= 8
        invariant
            1 <= r <= 9,
            acc as int == rank_sum(t, r - 1),
            0 <= acc as int <= 8 * (r - 1),
        decreases 9 - r,
    {
        let ghost acc0 = acc as int;
        let mut f: u8 = 1;
        while f <= 8
            invariant
                1 <= f <= 9,
                1 <= r <= 8,
                acc0 == rank_sum(t, r - 1),
                0 <= acc0 <= 8 * (r - 1),
                acc as int == acc0 + file_sum(t, r as int, f - 1),
                acc0 <= acc as int <= acc0 + (f - 1),
            decreases 9 - f,
        {
            let v: i32 = match board.get_piece(Position { file: f, rank: r }) {
                Some(p) => if p.piece_type == PieceType::Bishop && p.color == c {
                    1
                } else {
                    0
                },
                None => 0,
            };
            proof {
                assert(t(f as int, r as int) == (if spec_at(board@, f as int, r as int) == Some(
                    Piece { piece_type: PieceType::Bishop, color: c },
                ) {
                    1int
                } else {
                    0int
                }));
                assert(file_sum(t, r as int, f as int) == file_sum(t, r as int, f - 1) + t(
                    f as int,
                    r as int,
                ));
            }
            acc = acc + v;
            f = f + 1;
        }
        proof {
            assert(rank_sum(t, r as int) == rank_sum(t, r - 1) + file_sum(t, r as int, 8));
        }
        r = r + 1;
    }
    acc
}

/// The bishop-pair bonus, White minus Black.
fn evaluate_bishop_pair(board: &Board) -> (res: i32)
    requires
        board@.wf(),
    ensures
        res as int == spec_bishop_pair_term(board@),
        -30 <= res <= 30,
{
    let wb = count_bishops(board, Color::White);
    let bb = count_bishops(board, Color::Black);
    let mut score: i32 = 0;
    if wb >= 2 {
        score = score + 30;
    }
    if bb >= 2 {
        score = score - 30;
    }
    score
}

/// The non-terminal evaluation from the side to move's perspective.
fn evaluate_static(board: &Board) -> (res: i32)
    requires
        board@.wf(),
    ensures
        res as int == spec_eval_static(board@),
        -15000 <= res <= 15000,
{
    let endgame = is_endgame_phase(board);
    let total: i32 = evaluate_material(board) + evaluate_piece_tables(board) + evaluate_mobility(
        board,
    ) + evaluate_pawn_structure(board) + evaluate_king_safety(board, endgame)
        + evaluate_endgame_drive(board, endgame) + evaluate_bishop_pair(board);
    let clamped: i32 = if total < -15000 {
        -15000
    } else if total > 15000 {
        15000
    } else {
        total
    };
    if board.current_turn() == Color::White {
        clamped
    } else {
        -clamped
    }
}

/// Evaluates a position for the side to move: a large negative score when
/// it stands checkmated, zero for stalemate or insufficient material, and
/// otherwise the static sum of the evaluation terms.
pub fn evaluate_position(board: &Board) -> (res: i32)
    requires
        board@.wf(),
    ensures
        res as int == spec_evaluate(board@),
        -19500 <= res <= 19500,
{
    if !board.has_any_legal_move() {
        if board.is_in_check(board.current_turn()) {
            return -19500;
        }
        return 0;
    }
    if board.has_insufficient_material() {
        return 0;
    }
    evaluate_static(board)
}

/// Material negates under mirroring.
proof fn lemma_mirror_mat(b: BoardModel)
    requires
        b.wf(),
    ensures
        board_sum(spec_mat_fn(spec_mirror(b))) == -board_sum(spec_mat_fn(b)),
{
    let a = spec_mat_fn(spec_mirror(b));
    let c = spec_mat_fn(b);
    assert forall|f: int, r: int| 1 <= f <= 8 && 1 <= r <= 8 implies #[trigger] a(f, r) == -c(
        f,
        9 - r,
    ) by {
        lemma_mirror_at(b, f, r);
    }
    crate::grid::lemma_board_sum_neg_flip(a, c);
}

/// The positional tables negate under mirroring: the relative rank is the
/// same on both sides of the reflection.
proof fn lemma_mirror_pst(b: BoardModel)
    requires
        b.wf(),
    ensures
        board_sum(spec_pst_fn(spec_mirror(b))) == -board_sum(spec_pst_fn(b)),
{
    let a = spec_pst_fn(spec_mirror(b));
    let c = spec_pst_fn(b);
    assert forall|f: int, r: int| 1 <= f <= 8 && 1 <= r <= 8 implies #[trigger] a(f, r) == -c(
        f,
        9 - r,
    ) by {
        lemma_mirror_at(b, f, r);
    }
    crate::grid::lemma_board_sum_neg_flip(a, c);
}

/// Mobility negates under mirroring: each piece's destination count is
/// preserved square for square by the movement-rule symmetry.
proof fn lemma_mirror_mob(b: BoardModel)
    requires
        b.wf(),
    ensures
        board_sum(spec_mob_fn(spec_mirror(b))) == -board_sum(spec_mob_fn(b)),
{
    let a = spec_mob_fn(spec_mirror(b));
    let c = spec_mob_fn(b);
    assert forall|f: int, r: int| 1 <= f <= 8 && 1 <= r <= 8 implies #[trigger] a(f, r) == -c(
        f,
        9 - r,
    ) by {
        lemma_mirror_at(b, f, r);
        lemma_mirror_move_count(b, f, r);
    }
    crate::grid::lemma_board_sum_neg_flip(a, c);
}

/// A piece's destination count is the same on the mirrored board.
proof fn lemma_mirror_move_count(b: BoardModel, f: int, r: int)
    requires
        b.wf(),
        1 <= f <= 8,
        1 <= r <= 8,
    ensures
        spec_move_count(spec_mirror(b), f, r) == spec_move_count(b, f, 9 - r),
{
    let a = spec_dest_fn(spec_mirror(b), f, r);
    let c = spec_dest_fn(b, f, 9 - r);
    assert forall|tf: int, tr: int| 1 <= tf <= 8 && 1 <= tr <= 8 implies #[trigger] a(tf, tr) == c(
        tf,
        9 - tr,
    ) by {
        let m = spec_plain_move(f, r, tf, tr);
        lemma_mirror_is_valid(b, m);
        assert(spec_mirror_move(m) == spec_plain_move(f, 9 - r, tf, 9 - tr));
    }
    crate::grid::lemma_board_sum_eq_flip(a, c);
}

/// The doubled-pawn test reflects.
proof fn lemma_mirror_doubled(b: BoardModel, c: Color, f: int, r: int)
    requires
        b.wf(),
    ensures
        spec_doubled(spec_mirror(b), spec_opposite(c), f, r) == spec_doubled(b, c, f, 9 - r),
{
    let mb = spec_mirror(b);
    let c2 = spec_opposite(c);
    if spec_doubled(mb, c2, f, r) {
        let r2 = choose|r2: int|
            1 <= r2 <= 8 && r2 != r && #[trigger] spec_pawn_at(mb, c2, f, r2) && spec_rel_rank(
                c2,
                r2,
            ) < spec_rel_rank(c2, r);
        lemma_mirror_at(b, f, r2);
        assert(spec_pawn_at(b, c, f, 9 - r2));
    }
    if spec_doubled(b, c, f, 9 - r) {
        let r2 = choose|r2: int|
            1 <= r2 <= 8 && r2 != 9 - r && #[trigger] spec_pawn_at(b, c, f, r2) && spec_rel_rank(
                c,
                r2,
            ) < spec_rel_rank(c, 9 - r);
        lemma_mirror_at(b, f, 9 - r2);
        assert(spec_pawn_at(mb, c2, f, 9 - r2));
    }
}

/// The pawn-on-file test reflects.
proof fn lemma_mirror_pawn_on_file(b: BoardModel, c: Color, f: int)
    requires
        b.wf(),
    ensures
        spec_pawn_on_file(spec_mirror(b), spec_opposite(c), f) == spec_pawn_on_file(b, c, f),
{
    let mb = spec_mirror(b);
    let c2 = spec_opposite(c);
    if spec_pawn_on_file(mb, c2, f) {
        let r2 = choose|r2: int| 1 <= r2 <= 8 && #[trigger] spec_pawn_at(mb, c2, f, r2);
        lemma_mirror_at(b, f, r2);
        assert(spec_pawn_at(b, c, f, 9 - r2));
    }
    if spec_pawn_on_file(b, c, f) {
        let r2 = choose|r2: int| 1 <= r2 <= 8 && #[trigger] spec_pawn_at(b, c, f, r2);
        lemma_mirror_at(b, f, 9 - r2);
        assert(spec_pawn_at(mb, c2, f, 9 - r2));
    }
}

/// The blocked-by-enemy-pawn test reflects.
proof fn lemma_mirror_enemy_ahead(b: BoardModel, c: Color, f: int, r: int)
    requires
        b.wf(),
    ensures
        spec_enemy_pawn_ahead(spec_mirror(b), spec_opposite(c), f, r) == spec_enemy_pawn_ahead(
            b,
            c,
            f,
            9 - r,
        ),
{
    let mb = spec_mirror(b);
    let c2 = spec_opposite(c);
    if spec_enemy_pawn_ahead(mb, c2, f, r) {
        let (f2, r2) = choose|f2: int, r2: int|
            f - 1 <= f2 <= f + 1 && 1 <= f2 <= 8 && 1 <= r2 <= 8 && #[trigger] spec_pawn_at(
                mb,
                spec_opposite(c2),
                f2,
                r2,
            ) && spec_rel_rank(c2, r2) > spec_rel_rank(c2, r);
        lemma_mirror_at(b, f2, r2);
        assert(spec_pawn_at(b, spec_opposite(c), f2, 9 - r2));
    }
    if spec_enemy_pawn_ahead(b, c, f, 9 - r) {
        let (f2, r2) = choose|f2: int, r2: int|
            f - 1 <= f2 <= f + 1 && 1 <= f2 <= 8 && 1 <= r2 <= 8 && #[trigger] spec_pawn_at(
                b,
                spec_opposite(c),
                f2,
                r2,
            ) && spec_rel_rank(c, r2) > spec_rel_rank(c, 9 - r);
        lemma_mirror_at(b, f2, 9 - r2);
        assert(spec_pawn_at(mb, spec_opposite(c2), f2, 9 - r2));
    }
}

/// The connected-pawn test reflects.
proof fn lemma_mirror_connected(b: BoardModel, c: Color, f: int, r: int)
    requires
        b.wf(),
    ensures
        spec_connected(spec_mirror(b), spec_opposite(c), f, r) == spec_connected(b, c, f, 9 - r),
{
    let mb = spec_mirror(b);
    let c2 = spec_opposite(c);
    if spec_connected(mb, c2, f, r) {
        let (f2, r2) = choose|f2: int, r2: int|
            (f2 == f - 1 || f2 == f + 1) && 1 <= f2 <= 8 && 1 <= r2 <= 8 && #[trigger] spec_pawn_at(
                mb,
                c2,
                f2,
                r2,
            ) && -1 <= r2 - r <= 1;
        lemma_mirror_at(b, f2, r2);
        assert(spec_pawn_at(b, c, f2, 9 - r2));
    }
    if spec_connected(b, c, f, 9 - r) {
        let (f2, r2) = choose|f2: int, r2: int|
            (f2 == f - 1 || f2 == f + 1) && 1 <= f2 <= 8 && 1 <= r2 <= 8 && #[trigger] spec_pawn_at(
                b,
                c,
                f2,
                r2,
            ) && -1 <= r2 - (9 - r) <= 1;
        lemma_mirror_at(b, f2, 9 - r2);
        assert(spec_pawn_at(mb, c2, f2, 9 - r2));
    }
}

/// Pawn structure negates under mirroring.
proof fn lemma_mirror_pawn_struct(b: BoardModel)
    requires
        b.wf(),
    ensures
        board_sum(spec_pawn_fn(spec_mirror(b))) == -board_sum(spec_pawn_fn(b)),
{
    let a = spec_pawn_fn(spec_mirror(b));
    let c = spec_pawn_fn(b);
    assert forall|f: int, r: int| 1 <= f <= 8 && 1 <= r <= 8 implies #[trigger] a(f, r) == -c(
        f,
        9 - r,
    ) by {
        lemma_mirror_at(b, f, r);
        match spec_at(b, f, 9 - r) {
            Some(p) => {
                if p.piece_type == PieceType::Pawn {
                    lemma_mirror_doubled(b, p.color, f, r);
                    lemma_mirror_pawn_on_file(b, p.color, f - 1);
                    lemma_mirror_pawn_on_file(b, p.color, f + 1);
                    lemma_mirror_enemy_ahead(b, p.color, f, r);
                    lemma_mirror_connected(b, p.color, f, r);
                }
            },
            None => {},
        }
    }
    crate::grid::lemma_board_sum_neg_flip(a, c);
}

/// Piece-kind counts are preserved by mirroring.
proof fn lemma_mirror_count_kind(b: BoardModel, t: PieceType)
    requires
        b.wf(),
    ensures
        spec_count_kind(spec_mirror(b), t) == spec_count_kind(b, t),
{
    let a = spec_kind_fn(spec_mirror(b), t);
    let c = spec_kind_fn(b, t);
    assert forall|f: int, r: int| 1 <= f <= 8 && 1 <= r <= 8 implies #[trigger] a(f, r) == c(
        f,
        9 - r,
    ) by {
        lemma_mirror_at(b, f, r);
    }
    crate::grid::lemma_board_sum_eq_flip(a, c);
}

/// The game phase is the same on the mirrored board.
proof fn lemma_mirror_endgame(b: BoardModel)
    requires
        b.wf(),
    ensures
        spec_is_endgame(spec_mirror(b)) == spec_is_endgame(b),
{
    lemma_mirror_count_kind(b, PieceType::Queen);
    lemma_mirror_count_kind(b, PieceType::Rook);
    lemma_mirror_count_kind(b, PieceType::Bishop);
    lemma_mirror_count_kind(b, PieceType::Knight);
}

/// King safety negates under mirroring.
#[verifier::rlimit(100)]
proof fn lemma_mirror_ks(b: BoardModel)
    requires
        b.wf(),
    ensures
        board_sum(spec_ks_fn(spec_mirror(b))) == -board_sum(spec_ks_fn(b)),
{
    lemma_mirror_endgame(b);
    let a = spec_ks_fn(spec_mirror(b));
    let c = spec_ks_fn(b);
    assert forall|f: int, r: int| 1 <= f <= 8 && 1 <= r <= 8 implies #[trigger] a(f, r) == -c(
        f,
        9 - r,
    ) by {
        lemma_mirror_at(b, f, r);
        match spec_at(b, f, 9 - r) {
            Some(p) => {
                if p.piece_type == PieceType::King {
                    lemma_mirror_at(b, f - 1, r - 1);
                    lemma_mirror_at(b, f, r - 1);
                    lemma_mirror_at(b, f + 1, r - 1);
                    lemma_mirror_at(b, f - 1, r);
                    lemma_mirror_at(b, f + 1, r);
                    lemma_mirror_at(b, f - 1, r + 1);
                    lemma_mirror_at(b, f, r + 1);
                    lemma_mirror_at(b, f + 1, r + 1);
                    assert(spec_defenders(spec_mirror(b), f, r, spec_opposite(p.color))
                        == spec_defenders(b, f, 9 - r, p.color));
                    let d = spec_dir(p.color);
                    lemma_mirror_at(b, f - 1, r - d);
                    lemma_mirror_at(b, f, r - d);
                    lemma_mirror_at(b, f + 1, r - d);
                    assert(spec_shield(spec_mirror(b), f, r, spec_opposite(p.color)) == spec_shield(
                        b,
                        f,
                        9 - r,
                        p.color,
                    ));
                }
            },
            None => {},
        }
    }
    crate::grid::lemma_board_sum_neg_flip(a, c);
}

/// The endgame adjustment negates under mirroring.
proof fn lemma_mirror_eg(b: BoardModel)
    requires
        b.wf(),
    ensures
        board_sum(spec_eg_fn(spec_mirror(b))) == -board_sum(spec_eg_fn(b)),
{
    lemma_mirror_endgame(b);
    let a = spec_eg_fn(spec_mirror(b));
    let c = spec_eg_fn(b);
    assert forall|f: int, r: int| 1 <= f <= 8 && 1 <= r <= 8 implies #[trigger] a(f, r) == -c(
        f,
        9 - r,
    ) by {
        lemma_mirror_at(b, f, r);
    }
    crate::grid::lemma_board_sum_neg_flip(a, c);
}

/// The bishop-pair bonus negates under mirroring.
proof fn lemma_mirror_bishop_pair(b: BoardModel)
    requires
        b.wf(),
    ensures
        spec_bishop_pair_term(spec_mirror(b)) == -spec_bishop_pair_term(b),
{
    let aw = spec_bishop_fn(spec_mirror(b), Color::White);
    let cb = spec_bishop_fn(b, Color::Black);
    assert forall|f: int, r: int| 1 <= f <= 8 && 1 <= r <= 8 implies #[trigger] aw(f, r) == cb(
        f,
        9 - r,
    ) by {
        lemma_mirror_at(b, f, r);
    }
    crate::grid::lemma_board_sum_eq_flip(aw, cb);
    let ab = spec_bishop_fn(spec_mirror(b), Color::Black);
    let cw = spec_bishop_fn(b, Color::White);
    assert forall|f: int, r: int| 1 <= f <= 8 && 1 <= r <= 8 implies #[trigger] ab(f, r) == cw(
        f,
        9 - r,
    ) by {
        lemma_mirror_at(b, f, r);
    }
    crate::grid::lemma_board_sum_eq_flip(ab, cw);
}

/// The whole white-centric sum negates under mirroring.
proof fn lemma_mirror_eval_white(b: BoardModel)
    requires
        b.wf(),
    ensures
        spec_eval_white(spec_mirror(b)) == -spec_eval_white(b),
{
    lemma_mirror_mat(b);
    lemma_mirror_pst(b);
    lemma_mirror_mob(b);
    lemma_mirror_pawn_struct(b);
    lemma_mirror_ks(b);
    lemma_mirror_eg(b);
    lemma_mirror_bishop_pair(b);
}

/// Perspective symmetry of the static evaluation: mirroring the sides of
/// a board exactly negates its score, for every well-formed board.
pub proof fn lemma_eval_static_mirror(b: BoardModel)
    requires
        b.wf(),
    ensures
        spec_eval_static(spec_mirror(b)) == -spec_eval_static(b),
{
    lemma_mirror_eval_white(b);
}

/// Perspective symmetry of the full evaluator: on boards where neither
/// the position nor its mirror is terminal (some legal move exists and
/// the material suffices on both), the evaluation of the mirrored board
/// is the exact negation of the evaluation of the board.
pub proof fn lemma_evaluate_mirror(b: BoardModel)
    requires
        b.wf(),
        spec_has_legal_move(b),
        spec_has_legal_move(spec_mirror(b)),
        !spec_insufficient_material(b),
        !spec_insufficient_material(spec_mirror(b)),
    ensures
        spec_evaluate(spec_mirror(b)) == -spec_evaluate(b),
{
    lemma_eval_static_mirror(b);
}

} // verus!
