//! The driver a user interface talks to: consults the opening book,
//! ranks the legal moves by a quick evaluation (in parallel when asked),
//! then deepens the search within a phase-dependent time budget.

use vstd::prelude::*;
use rayon::iter::{IntoParallelRefIterator, ParallelIterator};
use crate::piece::PieceType;
use crate::moves::Move;
use crate::board::{Board, BoardModel, spec_gen_legal, spec_has_legal_move, spec_make_move_ok, spec_make_move};
use crate::evaluation::{evaluate_position, spec_count_kind, spec_evaluate, count_kind};
use crate::search::{SearchContext, search_root, generate_ordered_moves, MATE_SCORE};
use crate::opening_book::OpeningBook;
use crate::timeman::TimeManager;

verus! {

/// The phases a game passes through, told apart by remaining material.
#[derive(Debug, Clone, Copy, PartialEq, Eq, Structural)]
pub enum GamePhase {
    Early,
    Middle,
    End,
}

/// The total material value on the board, in pawns, both colors counted
/// together.
pub open spec fn spec_total_value(b: BoardModel) -> int {
    spec_count_kind(b, PieceType::Pawn) + 3 * spec_count_kind(b, PieceType::Knight) + 3
        * spec_count_kind(b, PieceType::Bishop) + 5 * spec_count_kind(b, PieceType::Rook) + 9
        * spec_count_kind(b, PieceType::Queen)
}

/// The phase a board is in: thresholds on the total material value.
pub open spec fn spec_game_phase(b: BoardModel) -> GamePhase {
    if spec_total_value(b) >= 30 {
        GamePhase::Early
    } else if spec_total_value(b) >= 15 {
        GamePhase::Middle
    } else {
        GamePhase::End
    }
}

/// What evaluating a candidate move yields: the evaluation of the board
/// after the move, or the least score when the move is not accepted.
pub open spec fn spec_eval_candidate(b: BoardModel, m: Move) -> int {
    if spec_make_move_ok(b, m) {
        spec_evaluate(spec_make_move(b, m))
    } else {
        i32::MIN as int
    }
}

/// Evaluates one candidate move on a scratch board.
pub fn eval_candidate(board: &Board, mv: Move) -> (r: i32)
    requires
        board@.wf(),
    ensures
        r as int == spec_eval_candidate(board@, mv),
{
    let mut new_board = board.duplicate();
    if new_board.make_move(mv).is_ok() {
        evaluate_position(&new_board)
    } else {
        i32::MIN
    }
}

/// Relies on rayon: `par_iter().map(..).collect()` over a vector runs the
/// map across worker threads, each call on its own cloned board, and
/// collects the results in input order (the iterator is indexed, so
/// collecting preserves order). The closure only calls `eval_candidate`.
#[verifier::external_body]
fn evaluate_moves_parallel(board: &Board, moves: &Vec<Move>) -> (r: Vec<(Move, i32)>)
    requires
        board@.wf(),
    ensures
        r@.len() == moves@.len(),
        forall|i: int|
            0 <= i < moves@.len() ==> (#[trigger] r@[i]).0 == moves@[i] && r@[i].1 as int
                == spec_eval_candidate(board@, moves@[i]),
{
    moves.par_iter().map(|m: &Move| (*m, eval_candidate(board, *m))).collect()
}

/// The engine a user interface drives: a preferred search depth, whether
/// the first ranking pass may run in parallel, and the opening book.
pub struct ChessAI {
    pub search_depth: u8,
    pub use_parallel: bool,
    pub opening_book: OpeningBook,
}

impl ChessAI {
    /// An engine searching to the given depth, clamped to 3..=5.
    pub fn new(search_depth: u8) -> (r: ChessAI)
        ensures
            r.search_depth == (if search_depth < 3 {
                3u8
            } else if search_depth > 5 {
                5u8
            } else {
                search_depth
            }),
            r.use_parallel == true,
            r.opening_book.wf(),
    {
        let clamped: u8 = if search_depth < 3 {
            3
        } else if search_depth > 5 {
            5
        } else {
            search_depth
        };
        ChessAI { search_depth: clamped, use_parallel: true, opening_book: OpeningBook::new() }
    }

    /// The game phase, told from the material left on the board.
    pub fn get_game_phase(&self, board: &Board) -> (r: GamePhase)
        requires
            board@.wf(),
        ensures
            r == spec_game_phase(board@),
    {
        let total_value = count_kind(board, PieceType::Pawn) + 3 * count_kind(
            board,
            PieceType::Knight,
        ) + 3 * count_kind(board, PieceType::Bishop) + 5 * count_kind(board, PieceType::Rook) + 9
            * count_kind(board, PieceType::Queen);
        if total_value >= 30 {
            GamePhase::Early
        } else if total_value >= 15 {
            GamePhase::Middle
        } else {
            GamePhase::End
        }
    }

    /// The thinking time for one move, in milliseconds: most of a second,
    /// the full second in the middle game.
    pub fn get_phase_time(&self, board: &Board) -> (r: u64)
        requires
            board@.wf(),
        ensures
            r == (match spec_game_phase(board@) {
                GamePhase::Early => 700u64,
                GamePhase::Middle => 1000u64,
                GamePhase::End => 800u64,
            }),
    {
        match self.get_game_phase(board) {
            GamePhase::Early => 700,
            GamePhase::Middle => 1000,
            GamePhase::End => 800,
        }
    }

    /// The deepest iteration for this phase, no deeper than the engine's
    /// own setting.
    pub fn get_phase_depth(&self, board: &Board) -> (r: u8)
        requires
            board@.wf(),
        ensures
            1 <= r <= 32,
            r <= self.search_depth || r <= 5,
    {
        let phase_depth: u8 = match self.get_game_phase(board) {
            GamePhase::Early => 4,
            GamePhase::Middle => 5,
            GamePhase::End => 5,
        };
        if self.search_depth < phase_depth && self.search_depth >= 1 {
            self.search_depth
        } else {
            phase_depth
        }
    }

    /// Ranks every legal move by a one-ply evaluation, across worker
    /// threads when parallel ranking is on.
    pub fn evaluate_moves(&self, board: &Board, moves: &Vec<Move>) -> (r: Vec<(Move, i32)>)
        requires
            board@.wf(),
        ensures
            r@.len() == moves@.len(),
            forall|i: int|
                0 <= i < moves@.len() ==> (#[trigger] r@[i]).0 == moves@[i] && r@[i].1 as int
                    == spec_eval_candidate(board@, moves@[i]),
    {
        if self.use_parallel {
            evaluate_moves_parallel(board, moves)
        } else {
            let mut r: Vec<(Move, i32)> = Vec::new();
            let mut i: usize = 0;
            while i < moves.len()
                invariant
                    board@.wf(),
                    i <= moves@.len(),
                    r@.len() == i,
                    forall|k: int|
                        0 <= k < i ==> (#[trigger] r@[k]).0 == moves@[k] && r@[k].1 as int
                            == spec_eval_candidate(board@, moves@[k]),
                decreases moves@.len() - i,
            {
                let mv = moves[i];
                r.push((mv, eval_candidate(board, mv)));
                i = i + 1;
            }
            r
        }
    }

    /// The engine's move for this position: a book move if the book knows
    /// one that the board accepts, else the best move of an iterative
    /// search within the phase's time budget, seeded by the parallel
    /// ranking. `None` comes back exactly when the side to move has no
    /// move at all; any move returned is accepted by `make_move`.
    #[verifier::loop_isolation(false)]
    pub fn get_best_move(&self, board: &Board) -> (r: Option<Move>)
        requires
            self.opening_book.wf(),
            board@.wf(),
        ensures
            r is None <==> !spec_has_legal_move(board@),
            match r {
                Some(m) => spec_make_move_ok(board@, m),
                None => true,
            },
    {
        let ctx0 = SearchContext::new();
        let moves = generate_ordered_moves(board, None, 0, None, &ctx0);
        if moves.len() == 0 {
            return None;
        }
        if let Some(book_move) = self.opening_book.get_book_move(board) {
            let mut trial = board.duplicate();
            if trial.make_move(book_move).is_ok() {
                return Some(book_move);
            }
        }
        // Rank the moves by a quick one-ply evaluation first, so that a
        // budget too small for any full iteration still yields a
        // sensibly ordered choice.
        let ranked = self.evaluate_moves(board, &moves);
        let mut best: Move = moves[0];
        let mut best_rank: i32 = i32::MIN;
        let mut i: usize = 0;
        while i < ranked.len()
            invariant
                i <= ranked@.len(),
                ranked@.len() == moves@.len(),
                moves@.contains(best),
                forall|k: int| 0 <= k < ranked@.len() ==> (#[trigger] ranked@[k]).0 == moves@[k],
            decreases ranked@.len() - i,
        {
            let (mv, score) = ranked[i];
            if score > best_rank {
                best_rank = score;
                best = mv;
                proof {
                    assert(moves@[i as int] == mv);
                }
            }
            i = i + 1;
        }
        let phase_time = self.get_phase_time(board);
        let phase_depth = self.get_phase_depth(board);
        let time_manager = TimeManager::new(phase_time, Some(1u32));
        let mut ctx = SearchContext::new();
        ctx.deadline_ms = time_manager.deadline_ms();
        let mut depth: u8 = 1;
        let mut done = false;
        while depth <= phase_depth && !done
            invariant
                board@.wf(),
                ctx.wf(),
                moves@.contains(best),
                1 <= depth,
                phase_depth <= 32,
                forall|k: int|
                    0 <= k < moves@.len() ==> #[trigger] spec_gen_legal(
                        board@,
                        moves@[k].from,
                        moves@[k],
                    ),
            decreases 33 - depth, (if done {
                0int
            } else {
                1int
            }),
        {
            if !time_manager.should_continue() {
                done = true;
            } else {
                let attempt = search_root(board, &moves, depth, -MATE_SCORE, MATE_SCORE, &mut ctx);
                if ctx.stopped {
                    done = true;
                } else {
                    best = match attempt.0 {
                        Some(m) => m,
                        None => best,
                    };
                    proof {
                        if attempt.0 is Some {
                            assert(moves@.contains(attempt.0->0));
                        }
                    }
                    depth = depth + 1;
                }
            }
        }
        proof {
            let k = choose|k: int| 0 <= k < moves@.len() && moves@[k] == best;
            assert(spec_gen_legal(board@, moves@[k].from, moves@[k]));
        }
        Some(best)
    }
}

} // verus!
