//! The search engine: principal-variation search with alpha-beta pruning,
//! a transposition table, move-ordering heuristics, quiescence search and
//! time-bounded iterative deepening.
//!
//! All mutable search state lives in an explicit [`SearchContext`] owned
//! by the top-level call and threaded through the recursion; nothing is
//! shared between calls.

use vstd::prelude::*;
use crate::position::{Position, pos_valid};
use crate::piece::{Piece, PieceType, get_piece_value, get_piece_static_value, spec_piece_value, spec_piece_static_value};
use crate::moves::{Move, spec_is_valid};
use crate::board::{Board, BoardModel, spec_at, spec_plain_move, spec_gen_legal, spec_has_legal_move, spec_in_check, spec_make_move_ok, spec_make_move, lemma_sq_index, sq_index};
use crate::evaluation::{evaluate_position, is_endgame_phase, spec_is_endgame, spec_evaluate};
use crate::tt::{TranspositionTable, TTEntry, EntryType, get_position_key, spec_position_key, adjust_mate_score, spec_adjust_mate};
use crate::timeman::TimeManager;

verus! {

/// Value standing for checkmate; every real score lies strictly inside.
pub const MATE_SCORE: i32 = 20000;

/// Scores at or beyond this count as forced mates.
pub const MATE_THRESHOLD: i32 = 19000;

/// The deepest iteration attempted.
pub const MAX_DEPTH: u8 = 15;

/// Depth of the capture-only search below the horizon.
pub const QUIESCENCE_DEPTH: u8 = 6;

/// Stand-pat scores this far below alpha end the quiescence search.
pub const DELTA_MARGIN: i32 = 200;

/// Entries kept before the whole cache is cleared.
pub const MAX_TT_SIZE: usize = 1000000;

/// Width of the first aspiration window.
pub const WINDOW_SIZE_INIT: i32 = 100;

/// The depth reduction of a null-move search.
pub const NULL_MOVE_R: u8 = 3;

/// Depth from which late moves are reduced.
pub const REDUCTION_LIMIT: u8 = 3;

/// Moves searched with the full window before reductions begin.
pub const FULL_DEPTH_MOVES: usize = 4;

/// Ordering bonus for the cached best move: large enough that it tops
/// every other combination of bonuses.
pub const PV_MOVE_SCORE: i32 = 1000000;

/// Ordering base bonus for captures, above every quiet-move bonus.
pub const CAPTURE_SCORE_BASE: i32 = 100000;

/// Ordering bonus for the first killer move of a ply.
pub const KILLER_MOVE_SCORE: i32 = 50000;

/// Ordering bonus for a promotion, between the killers and the quiet
/// moves.
pub const PROMOTION_SCORE: i32 = 30000;

/// Ordering bonus for the counter of the previous move.
pub const COUNTER_MOVE_SCORE: i32 = 10000;

/// Largest history value used in ordering.
pub const HISTORY_SCORE_MAX: i32 = 8000;

/// All mutable state of one search: the position cache, the history,
/// killer and counter-move tables, a node counter, and the cooperative
/// stop flag with its clock deadline.
pub struct SearchContext {
    pub tt: TranspositionTable,
    pub history: Vec<i32>,
    pub killers: Vec<(Option<Move>, Option<Move>)>,
    pub counters: Vec<Option<Move>>,
    pub nodes: u64,
    pub stopped: bool,
    pub deadline_ms: u64,
}

impl SearchContext {
    /// The tables have their fixed sizes and the cache holds only scores
    /// within the mate bound; history values stay small enough to add.
    pub open spec fn wf(self) -> bool {
        &&& self.tt.wf()
        &&& self.history@.len() == 4096
        &&& self.killers@.len() == 128
        &&& self.counters@.len() == 4096
        &&& forall|i: int| 0 <= i < 4096 ==> 0 <= #[trigger] self.history@[i] <= 17024
    }

    /// A fresh context with an empty cache and zeroed tables.
    pub fn new() -> (r: SearchContext)
        ensures
            r.wf(),
            r.stopped == false,
            r.tt.contents() == Map::<u64, TTEntry>::empty(),
    {
        let mut history: Vec<i32> = Vec::new();
        let mut i: usize = 0;
        while i < 4096
            invariant
                history@.len() == i,
                i <= 4096,
                forall|j: int| 0 <= j < i ==> #[trigger] history@[j] == 0,
            decreases 4096 - i,
        {
            history.push(0);
            i = i + 1;
        }
        let mut killers: Vec<(Option<Move>, Option<Move>)> = Vec::new();
        let mut k: usize = 0;
        while k < 128
            invariant
                killers@.len() == k,
                k <= 128,
            decreases 128 - k,
        {
            killers.push((None, None));
            k = k + 1;
        }
        let mut counters: Vec<Option<Move>> = Vec::new();
        let mut c: usize = 0;
        while c < 4096
            invariant
                counters@.len() == c,
                c <= 4096,
            decreases 4096 - c,
        {
            counters.push(None);
            c = c + 1;
        }
        SearchContext {
            tt: TranspositionTable::new(),
            history,
            killers,
            counters,
            nodes: 0,
            stopped: false,
            deadline_ms: u64::MAX,
        }
    }
}

/// The history-table slot of a move: its from-square then its to-square.
pub open spec fn spec_move_index(m: Move) -> int {
    sq_index(m.from.file as int, m.from.rank as int) * 64 + sq_index(
        m.to.file as int,
        m.to.rank as int,
    )
}

/// Computes the history-table slot of a move with both squares on the
/// board.
fn move_index(m: Move) -> (r: usize)
    requires
        pos_valid(m.from),
        pos_valid(m.to),
    ensures
        r == spec_move_index(m),
        r < 4096,
{
    proof {
        lemma_sq_index(m.from.file as int, m.from.rank as int);
        lemma_sq_index(m.to.file as int, m.to.rank as int);
        assert(spec_move_index(m) < 4096) by (nonlinear_arith)
            requires
                0 <= sq_index(m.from.file as int, m.from.rank as int) < 64 && 0 <= sq_index(
                    m.to.file as int,
                    m.to.rank as int,
                ) < 64 && spec_move_index(m) == sq_index(m.from.file as int, m.from.rank as int)
                    * 64 + sq_index(m.to.file as int, m.to.rank as int),
        ;
    }
    let from_idx: usize = ((m.from.rank - 1) as usize) * 8 + ((m.from.file - 1) as usize);
    let to_idx: usize = ((m.to.rank - 1) as usize) * 8 + ((m.to.file - 1) as usize);
    from_idx * 64 + to_idx
}

/// Whether a move lands on an occupied square.
pub fn is_capture(board: &Board, mv: Move) -> (r: bool)
    requires
        board@.wf(),
    ensures
        r == (spec_at(board@, mv.to.file as int, mv.to.rank as int) is Some),
{
    board.get_piece(mv.to).is_some()
}

/// Most-valuable-victim, least-valuable-attacker ordering score.
pub open spec fn spec_mvv_lva(victim: PieceType, attacker: PieceType) -> int {
    spec_piece_value(victim) * 100 - spec_piece_value(attacker) * 10
}

pub fn mvv_lva_score(victim: PieceType, attacker: PieceType) -> (r: i32)
    ensures
        r as int == spec_mvv_lva(victim, attacker),
        -90 <= r <= 900,
{
    get_piece_value(victim) * 100 - get_piece_value(attacker) * 10
}

/// The net centipawns of a capture judged statically: what the victim is
/// worth minus what the attacker risks. Zero when the move captures
/// nothing.
pub open spec fn spec_see(b: BoardModel, m: Move) -> int {
    match (
        spec_at(b, m.to.file as int, m.to.rank as int),
        spec_at(b, m.from.file as int, m.from.rank as int),
    ) {
        (Some(victim), Some(attacker)) => spec_piece_static_value(victim.piece_type)
            - spec_piece_static_value(attacker.piece_type),
        _ => 0,
    }
}

pub fn static_exchange_evaluation(board: &Board, mv: Move) -> (r: i32)
    requires
        board@.wf(),
    ensures
        r as int == spec_see(board@, mv),
        -20000 <= r <= 20000,
{
    let victim = board.get_piece(mv.to);
    let attacker = board.get_piece(mv.from);
    match (victim, attacker) {
        (Some(v), Some(a)) => get_piece_static_value(v.piece_type) - get_piece_static_value(
            a.piece_type,
        ),
        _ => 0,
    }
}

/// Capture ordering score used inside the quiescence search: the static
/// exchange first, victim-versus-attacker second, plus a small bonus for
/// the mobility of the landing square.
fn get_mvv_lva_score(board: &Board, mv: Move) -> (r: i32)
    requires
        board@.wf(),
    ensures
        -2010000 <= r <= 2010000,
{
    let victim = board.get_piece(mv.to);
    let attacker = board.get_piece(mv.from);
    match (victim, attacker) {
        (Some(v), Some(a)) => {
            let victim_value = get_piece_static_value(v.piece_type);
            let attacker_value = get_piece_static_value(a.piece_type);
            let vm = board.get_valid_moves(mv.to);
            let mobility_bonus: i32 = if vm.len() > 320 {
                1600
            } else {
                (vm.len() as i32) * 5
            };
            victim_value * 100 - attacker_value * 10 + mobility_bonus
        },
        _ => 0,
    }
}

/// Whether the position should be treated as an endgame for pruning, or
/// the side to move stands in check; null-move pruning is unsafe in both.
pub fn is_endgame_or_in_check(board: &Board) -> (r: bool)
    requires
        board@.wf(),
    ensures
        r == (spec_is_endgame(board@) || spec_in_check(board@, board@.current_turn)),
{
    is_endgame_phase(board) || board.is_in_check(board.current_turn())
}

/// Raises a quiet move's history value after a beta cutoff, halving the
/// whole table when the value outgrows its ceiling: only the move's own
/// slot gains the depth-squared bonus, and either no other slot changes,
/// or every slot is halved.
fn update_history(history: &mut Vec<i32>, mv: Move, depth: u8)
    requires
        old(history)@.len() == 4096,
        forall|i: int| 0 <= i < 4096 ==> 0 <= #[trigger] old(history)@[i] <= 17024,
        pos_valid(mv.from),
        pos_valid(mv.to),
        depth <= 32,
    ensures
        final(history)@.len() == 4096,
        forall|i: int| 0 <= i < 4096 ==> 0 <= #[trigger] final(history)@[i] <= 17024,
        ({
            let idx = spec_move_index(mv);
            let bumped = old(history)@[idx] + depth * depth;
            if bumped > 16000 {
                forall|i: int|
                    0 <= i < 4096 ==> (#[trigger] final(history)@[i]) as int == (if i == idx {
                        bumped
                    } else {
                        old(history)@[i] as int
                    }) / 2
            } else {
                final(history)@ == old(history)@.update(idx, bumped as i32)
            }
        }),
{
    let idx = move_index(mv);
    proof {
        assert(0 <= (depth as i32) * (depth as i32) <= 1024) by (nonlinear_arith)
            requires
                0 <= depth <= 32,
        ;
    }
    let bonus = (depth as i32) * (depth as i32);
    let updated = history[idx] + bonus;
    history.set(idx, updated);
    if updated > HISTORY_SCORE_MAX * 2 {
        let ghost mid = history@;
        let mut i: usize = 0;
        while i < 4096
            invariant
                history@.len() == 4096,
                i <= 4096,
                mid == old(history)@.update(idx as int, updated),
                forall|j: int| 0 <= j < i ==> #[trigger] history@[j] == mid[j] / 2,
                forall|j: int| i <= j < 4096 ==> #[trigger] history@[j] == mid[j],
                forall|j: int| 0 <= j < i ==> 0 <= #[trigger] history@[j] <= 17024,
                forall|j: int| i <= j < 4096 ==> 0 <= #[trigger] history@[j] <= 18048,
            decreases 4096 - i,
        {
            let halved = history[i] / 2;
            history.set(i, halved);
            i = i + 1;
        }
    }
}

/// The history value of a move, for ordering.
fn get_history_score(history: &Vec<i32>, mv: Move) -> (r: i32)
    requires
        history@.len() == 4096,
        forall|i: int| 0 <= i < 4096 ==> 0 <= #[trigger] history@[i] <= 17024,
        pos_valid(mv.from),
        pos_valid(mv.to),
    ensures
        r == history@[spec_move_index(mv)],
        0 <= r <= 17024,
{
    let idx = move_index(mv);
    history[idx]
}

/// Records a quiet move that caused a cutoff as a killer of its ply,
/// keeping the two most recent: unless the move already leads the slot,
/// it becomes the first killer and the old first becomes the second.
fn update_killer_moves(killers: &mut Vec<(Option<Move>, Option<Move>)>, ply: u8, mv: Move)
    requires
        old(killers)@.len() == 128,
        ply < 128,
    ensures
        final(killers)@.len() == 128,
        final(killers)@ == (if old(killers)@[ply as int].0 == Some(mv) {
            old(killers)@
        } else {
            old(killers)@.update(ply as int, (Some(mv), old(killers)@[ply as int].0))
        }),
{
    let slot = killers[ply as usize];
    let is_same = match slot.0 {
        Some(k) => k == mv,
        None => false,
    };
    if !is_same {
        killers.set(ply as usize, (Some(mv), slot.0));
    }
}

/// Counts a node and, every so many nodes, reads the clock and raises
/// the stop flag once the deadline has passed. Cancellation is
/// cooperative: the flag is polled, nothing is pre-empted.
fn poll_clock(ctx: &mut SearchContext)
    requires
        old(ctx).wf(),
    ensures
        final(ctx).wf(),
        final(ctx).tt == old(ctx).tt,
        final(ctx).history == old(ctx).history,
        final(ctx).killers == old(ctx).killers,
        final(ctx).counters == old(ctx).counters,
        final(ctx).deadline_ms == old(ctx).deadline_ms,
{
    if ctx.nodes < u64::MAX {
        ctx.nodes = ctx.nodes + 1;
    }
    if ctx.nodes % 1024 == 0 {
        let now = crate::timeman::current_millis();
        if now >= ctx.deadline_ms {
            ctx.stopped = true;
        }
    }
}

/// The ordering priority of one move, in bands: the cached best move
/// above everything, then captures by victim versus attacker and a
/// positive exchange estimate, then the ply's killers, then promotions,
/// and last the quiet moves by counter-move and history value.
#[verifier::opaque]
pub open spec fn spec_move_priority(
    b: BoardModel,
    ctx: SearchContext,
    tt_move: Option<Move>,
    ply: u8,
    prev_move: Option<Move>,
    m: Move,
) -> int {
    let tt_bonus: int = if tt_move == Some(m) {
        1000000
    } else {
        0
    };
    let capture_bonus: int = match (
        spec_at(b, m.to.file as int, m.to.rank as int),
        spec_at(b, m.from.file as int, m.from.rank as int),
    ) {
        (Some(victim), Some(attacker)) => 100000 + spec_mvv_lva(
            victim.piece_type,
            attacker.piece_type,
        ) + (if spec_see(b, m) > 0 {
            spec_see(b, m) * 10
        } else {
            0
        }),
        _ => 0,
    };
    let killer_bonus: int = if ctx.killers@[ply as int].0 == Some(m) {
        50000
    } else if ctx.killers@[ply as int].1 == Some(m) {
        49900
    } else {
        0
    };
    let promotion_bonus: int = if m.promotion is Some {
        30000
    } else {
        0
    };
    let counter_bonus: int = match prev_move {
        Some(prev) => if pos_valid(prev.from) && pos_valid(prev.to) && ctx.counters@[spec_move_index(
            prev,
        )] == Some(m) {
            10000
        } else {
            0
        },
        None => 0,
    };
    let history_bonus: int = if ctx.history@[spec_move_index(m)] > 8000 {
        8000
    } else {
        ctx.history@[spec_move_index(m)] as int
    };
    tt_bonus + capture_bonus + killer_bonus + promotion_bonus + counter_bonus + history_bonus
}

/// The priority bands are far enough apart that the cached best move
/// outranks everything else, whatever bonuses stack.
pub proof fn lemma_priority_bands(
    b: BoardModel,
    ctx: SearchContext,
    tt_move: Option<Move>,
    ply: u8,
    prev_move: Option<Move>,
    m: Move,
)
    requires
        ctx.wf(),
        ply < 128,
        pos_valid(m.from),
        pos_valid(m.to),
    ensures
        tt_move == Some(m) ==> spec_move_priority(b, ctx, tt_move, ply, prev_move, m) >= 1000000,
        tt_move != Some(m) ==> spec_move_priority(b, ctx, tt_move, ply, prev_move, m) <= 500000,
{
    reveal(spec_move_priority);
    lemma_sq_index(m.from.file as int, m.from.rank as int);
    lemma_sq_index(m.to.file as int, m.to.rank as int);
    assert(spec_move_index(m) < 4096) by (nonlinear_arith)
        requires
            0 <= sq_index(m.from.file as int, m.from.rank as int) < 64 && 0 <= sq_index(
                m.to.file as int,
                m.to.rank as int,
            ) < 64 && spec_move_index(m) == sq_index(m.from.file as int, m.from.rank as int) * 64
                + sq_index(m.to.file as int, m.to.rank as int),
    ;
    assert(0 <= ctx.history@[spec_move_index(m)] <= 17024);
}

/// Computes the ordering priority of one move.
#[verifier::rlimit(100)]
#[verifier::spinoff_prover]
fn score_move(
    board: &Board,
    mv: Move,
    tt_move: Option<Move>,
    ply: u8,
    prev_move: Option<Move>,
    ctx: &SearchContext,
) -> (r: i32)
    requires
        board@.wf(),
        ctx.wf(),
        ply < 128,
        pos_valid(mv.from),
        pos_valid(mv.to),
    ensures
        r as int == spec_move_priority(board@, *ctx, tt_move, ply, prev_move, mv),
        0 <= r <= 1500000,
{
    let tt_bonus: i32 = match tt_move {
        Some(tt_mv) => if tt_mv == mv {
            PV_MOVE_SCORE
        } else {
            0
        },
        None => 0,
    };
    let mut capture_bonus: i32 = 0;
    if let Some(victim) = board.get_piece(mv.to) {
        if let Some(attacker) = board.get_piece(mv.from) {
            capture_bonus = CAPTURE_SCORE_BASE + mvv_lva_score(
                victim.piece_type,
                attacker.piece_type,
            );
            let see_score = static_exchange_evaluation(board, mv);
            if see_score > 0 {
                capture_bonus = capture_bonus + see_score * 10;
            }
        }
    }
    let killers = ctx.killers[ply as usize];
    let is_first = match killers.0 {
        Some(k) => k == mv,
        None => false,
    };
    let is_second = match killers.1 {
        Some(k) => k == mv,
        None => false,
    };
    let killer_bonus: i32 = if is_first {
        KILLER_MOVE_SCORE
    } else if is_second {
        KILLER_MOVE_SCORE - 100
    } else {
        0
    };
    let promotion_bonus: i32 = if mv.promotion.is_some() {
        PROMOTION_SCORE
    } else {
        0
    };
    let mut counter_bonus: i32 = 0;
    if let Some(prev) = prev_move {
        if 1 <= prev.from.file && prev.from.file <= 8 && 1 <= prev.from.rank && prev.from.rank <= 8
            && 1 <= prev.to.file && prev.to.file <= 8 && 1 <= prev.to.rank && prev.to.rank <= 8 {
            let counter = ctx.counters[move_index(prev)];
            let is_counter = match counter {
                Some(k) => k == mv,
                None => false,
            };
            if is_counter {
                counter_bonus = COUNTER_MOVE_SCORE;
            }
        }
    }
    let hist = get_history_score(&ctx.history, mv);
    let history_bonus: i32 = if hist > HISTORY_SCORE_MAX {
        HISTORY_SCORE_MAX
    } else {
        hist
    };
    let total = tt_bonus + capture_bonus + killer_bonus + promotion_bonus + counter_bonus
        + history_bonus;
    proof {
        assert(total as int == spec_move_priority(board@, *ctx, tt_move, ply, prev_move, mv)) by {
            reveal(spec_move_priority);
        };
    }
    total
}

/// Descending order by score.
pub open spec fn spec_sorted_desc(s: Seq<(Move, i32)>) -> bool {
    forall|i: int, j: int| 0 <= i < j < s.len() ==> (#[trigger] s[i]).1 >= (#[trigger] s[j]).1
}

/// A move appears in a scored list.
pub open spec fn spec_holds_move(s: Seq<(Move, i32)>, m: Move) -> bool {
    exists|k: int| 0 <= k < s.len() && (#[trigger] s[k]).0 == m
}

/// An entry appears in a scored list.
pub open spec fn spec_from_among(s: Seq<(Move, i32)>, x: (Move, i32)) -> bool {
    exists|k: int| 0 <= k < s.len() && s[k] == x
}

/// Exchanges two entries of a scored list, keeping its contents.
fn swap_scored(v: &mut Vec<(Move, i32)>, i: usize, j: usize)
    requires
        i < j,
        j < old(v)@.len(),
    ensures
        final(v)@.len() == old(v)@.len(),
        final(v)@[i as int] == old(v)@[j as int],
        final(v)@[j as int] == old(v)@[i as int],
        forall|k: int| 0 <= k < old(v)@.len() && k != i && k != j ==> final(v)@[k] == old(v)@[k],
        forall|m: Move| spec_holds_move(old(v)@, m) <==> spec_holds_move(final(v)@, m),
        forall|k: int|
            0 <= k < final(v)@.len() ==> spec_from_among(old(v)@, #[trigger] final(v)@[k]),
{
    let a = v[i];
    let b = v[j];
    v.set(i, b);
    v.set(j, a);
    proof {
        assert forall|m: Move| spec_holds_move(old(v)@, m) implies spec_holds_move(v@, m) by {
            let k = choose|k: int| 0 <= k < old(v)@.len() && (#[trigger] old(v)@[k]).0 == m;
            if k == i {
                assert(v@[j as int].0 == m);
            } else if k == j {
                assert(v@[i as int].0 == m);
            } else {
                assert(v@[k].0 == m);
            }
        }
        assert forall|m: Move| spec_holds_move(v@, m) implies spec_holds_move(old(v)@, m) by {
            let k = choose|k: int| 0 <= k < v@.len() && (#[trigger] v@[k]).0 == m;
            if k == i {
                assert(old(v)@[j as int].0 == m);
            } else if k == j {
                assert(old(v)@[i as int].0 == m);
            } else {
                assert(old(v)@[k].0 == m);
            }
        }
        assert forall|k: int| 0 <= k < v@.len() implies spec_from_among(
            old(v)@,
            #[trigger] v@[k],
        ) by {
            if k == i {
                assert(old(v)@[j as int] == v@[k]);
            } else if k == j {
                assert(old(v)@[i as int] == v@[k]);
            } else {
                assert(old(v)@[k] == v@[k]);
            }
        }
    }
}

/// Sorts a scored list into descending score order by adjacent
/// exchanges; the entries are kept, only reordered.
#[verifier::loop_isolation(false)]
fn sort_scored(v: &mut Vec<(Move, i32)>)
    ensures
        final(v)@.len() == old(v)@.len(),
        spec_sorted_desc(final(v)@),
        forall|m: Move| spec_holds_move(old(v)@, m) <==> spec_holds_move(final(v)@, m),
        forall|k: int|
            0 <= k < final(v)@.len() ==> spec_from_among(old(v)@, #[trigger] final(v)@[k]),
{
    let ghost orig = v@;
    let n = v.len();
    if n <= 1 {
        proof {
            assert forall|k: int| 0 <= k < v@.len() implies spec_from_among(
                orig,
                #[trigger] v@[k],
            ) by {
                assert(orig[k] == v@[k]);
            }
        }
        return ;
    }
    proof {
        assert forall|k: int| 0 <= k < v@.len() implies spec_from_among(
            orig,
            #[trigger] v@[k],
        ) by {
            assert(orig[k] == v@[k]);
        }
    }
    let mut i: usize = 1;
    while i < n
        invariant
            n == v@.len(),
            n == orig.len(),
            1 <= i <= n,
            spec_sorted_desc(v@.subrange(0, i as int)),
            forall|m: Move| spec_holds_move(orig, m) <==> spec_holds_move(v@, m),
            forall|k: int| 0 <= k < v@.len() ==> spec_from_among(orig, #[trigger] v@[k]),
        decreases n - i,
    {
        proof {
            assert forall|a: int, b: int|
                0 <= a < b <= i && b != i implies (#[trigger] v@[a]).1 >= (#[trigger] v@[b]).1 by {
                assert(v@.subrange(0, i as int)[a] == v@[a]);
                assert(v@.subrange(0, i as int)[b] == v@[b]);
            }
        }
        let mut j: usize = i;
        while j > 0 && v[j - 1].1 < v[j].1
            invariant
                n == v@.len(),
                0 <= j <= i < n,
                forall|a: int, b: int|
                    0 <= a < b <= i && b != j ==> (#[trigger] v@[a]).1 >= (#[trigger] v@[b]).1,
                forall|b: int| j < b <= i ==> v@[j as int].1 >= (#[trigger] v@[b]).1,
                forall|m: Move| spec_holds_move(orig, m) <==> spec_holds_move(v@, m),
                forall|k: int| 0 <= k < v@.len() ==> spec_from_among(orig, #[trigger] v@[k]),
            decreases j,
        {
            let ghost prev = v@;
            swap_scored(v, j - 1, j);
            proof {
                assert forall|k: int| 0 <= k < v@.len() implies spec_from_among(
                    orig,
                    #[trigger] v@[k],
                ) by {
                    assert(spec_from_among(prev, v@[k]));
                    let kp = choose|kp: int| 0 <= kp < prev.len() && prev[kp] == v@[k];
                    assert(spec_from_among(orig, prev[kp]));
                    let k2 = choose|k2: int| 0 <= k2 < orig.len() && orig[k2] == prev[kp];
                    assert(orig[k2] == v@[k]);
                }
            }
            j = j - 1;
        }
        proof {
            assert forall|a: int, b: int| 0 <= a < b <= i implies (#[trigger] v@[a]).1 >= (
            #[trigger] v@[b]).1 by {
                if b == j && a < j {
                    if a < j - 1 {
                        assert(v@[a].1 >= v@[j - 1].1);
                    }
                }
            }
            assert(spec_sorted_desc(v@.subrange(0, i + 1)));
        }
        i = i + 1;
    }
    proof {
        if n > 0 {
            assert(v@.subrange(0, n as int) =~= v@);
        }
    }
}

/// Every acceptable move of the side to move, ordered best first: the
/// list holds exactly the moves `make_move` accepts, it is empty exactly
/// when the mover has no move, it descends by the banded heuristic
/// priority, and whenever the cached move is in the list it comes first.
#[verifier::loop_isolation(false)]
#[verifier::rlimit(100)]
pub fn generate_ordered_moves(
    board: &Board,
    tt_move: Option<Move>,
    ply: u8,
    prev_move: Option<Move>,
    ctx: &SearchContext,
) -> (r: Vec<Move>)
    requires
        board@.wf(),
        ctx.wf(),
        ply < 128,
    ensures
        forall|i: int|
            0 <= i < r@.len() ==> #[trigger] spec_gen_legal(board@, r@[i].from, r@[i]),
        forall|m: Move| #[trigger] spec_gen_legal(board@, m.from, m) ==> r@.contains(m),
        (r@.len() == 0) <==> !spec_has_legal_move(board@),
        forall|i: int, j: int|
            0 <= i < j < r@.len() ==> #[trigger] spec_move_priority(
                board@,
                *ctx,
                tt_move,
                ply,
                prev_move,
                r@[i],
            ) >= #[trigger] spec_move_priority(board@, *ctx, tt_move, ply, prev_move, r@[j]),
        match tt_move {
            Some(t) => spec_gen_legal(board@, t.from, t) ==> r@.len() > 0 && r@[0] == t,
            None => true,
        },
{
    let ghost b = board@;
    let mut scored: Vec<(Move, i32)> = Vec::new();
    let mut fi: usize = 0;
    while fi < 64
        invariant
            fi <= 64,
            forall|k: int|
                0 <= k < scored@.len() ==> #[trigger] spec_gen_legal(
                    b,
                    scored@[k].0.from,
                    scored@[k].0,
                ),
            forall|m: Move|
                #[trigger] spec_gen_legal(b, m.from, m) && sq_index(
                    m.from.file as int,
                    m.from.rank as int,
                ) < fi ==> spec_holds_move(scored@, m),
            forall|x: int|
                0 <= x < scored@.len() ==> (#[trigger] scored@[x]).1 as int == spec_move_priority(
                    b,
                    *ctx,
                    tt_move,
                    ply,
                    prev_move,
                    scored@[x].0,
                ),
        decreases 64 - fi,
    {
        let from = Position { file: (fi % 8 + 1) as u8, rank: (fi / 8 + 1) as u8 };
        proof {
            assert(fi == 8 * (fi as int / 8) + (fi as int % 8));
            assert(sq_index(from.file as int, from.rank as int) == fi);
        }
        let vm = board.get_valid_moves(from);
        let mut k: usize = 0;
        while k < vm.len()
            invariant
                k <= vm@.len(),
                forall|x: int|
                    0 <= x < scored@.len() ==> #[trigger] spec_gen_legal(
                        b,
                        scored@[x].0.from,
                        scored@[x].0,
                    ),
                forall|m: Move|
                    #[trigger] spec_gen_legal(b, m.from, m) && sq_index(
                        m.from.file as int,
                        m.from.rank as int,
                    ) < fi ==> spec_holds_move(scored@, m),
                forall|x: int| 0 <= x < k ==> spec_holds_move(scored@, #[trigger] vm@[x]),
                forall|x: int|
                    0 <= x < scored@.len() ==> (#[trigger] scored@[x]).1 as int
                        == spec_move_priority(b, *ctx, tt_move, ply, prev_move, scored@[x].0),
            decreases vm@.len() - k,
        {
            let m = vm[k];
            proof {
                assert(spec_gen_legal(b, from, m));
                assert(m.from == from);
            }
            let s = score_move(board, m, tt_move, ply, prev_move, ctx);
            let ghost before = scored@;
            scored.push((m, s));
            proof {
                assert(scored@[before.len() as int].0 == m);
                assert forall|mm: Move| spec_holds_move(before, mm) implies spec_holds_move(
                    scored@,
                    mm,
                ) by {
                    let x = choose|x: int| 0 <= x < before.len() && (#[trigger] before[x]).0 == mm;
                    assert(scored@[x].0 == mm);
                }
                assert forall|x: int|
                    0 <= x < scored@.len() implies (#[trigger] scored@[x]).1 as int
                    == spec_move_priority(b, *ctx, tt_move, ply, prev_move, scored@[x].0) by {
                    if x < before.len() {
                        assert(scored@[x] == before[x]);
                    } else {
                        assert(scored@[x] == (m, s));
                    }
                }
            }
            k = k + 1;
        }
        proof {
            assert forall|m: Move|
                spec_gen_legal(b, m.from, m) && sq_index(m.from.file as int, m.from.rank as int)
                    == fi implies spec_holds_move(scored@, m) by {
                lemma_sq_index(m.from.file as int, m.from.rank as int);
                assert(m.from == from);
                assert(vm@.contains(m));
                let x = choose|x: int| 0 <= x < vm@.len() && vm@[x] == m;
                assert(spec_holds_move(scored@, vm@[x]));
            }
        }
        fi = fi + 1;
    }
    proof {
        assert forall|m: Move| spec_gen_legal(b, m.from, m) implies spec_holds_move(scored@, m) by {
            lemma_sq_index(m.from.file as int, m.from.rank as int);
        }
    }
    let ghost unsorted = scored@;
    sort_scored(&mut scored);
    proof {
        assert forall|i: int|
            0 <= i < scored@.len() implies #[trigger] spec_gen_legal(
            b,
            scored@[i].0.from,
            scored@[i].0,
        ) && scored@[i].1 as int == spec_move_priority(
            b,
            *ctx,
            tt_move,
            ply,
            prev_move,
            scored@[i].0,
        ) by {
            assert(spec_from_among(unsorted, scored@[i]));
            let k2 = choose|k2: int| 0 <= k2 < unsorted.len() && unsorted[k2] == scored@[i];
            assert(spec_gen_legal(b, unsorted[k2].0.from, unsorted[k2].0));
            assert(unsorted[k2].1 as int == spec_move_priority(
                b,
                *ctx,
                tt_move,
                ply,
                prev_move,
                unsorted[k2].0,
            ));
        }
    }
    let mut r: Vec<Move> = Vec::new();
    let mut k: usize = 0;
    while k < scored.len()
        invariant
            k <= scored@.len(),
            r@.len() == k,
            forall|x: int| 0 <= x < k ==> #[trigger] r@[x] == scored@[x].0,
        decreases scored@.len() - k,
    {
        r.push(scored[k].0);
        k = k + 1;
    }
    proof {
        assert forall|m: Move| spec_gen_legal(b, m.from, m) implies r@.contains(m) by {
            assert(spec_holds_move(scored@, m));
            let x = choose|x: int| 0 <= x < scored@.len() && (#[trigger] scored@[x]).0 == m;
            assert(r@[x] == m);
        }
        if r@.len() == 0 {
            assert forall|m: Move| !spec_gen_legal(b, m.from, m) by {
                if spec_gen_legal(b, m.from, m) {
                    assert(r@.contains(m));
                }
            }
        } else {
            assert(spec_gen_legal(b, r@[0].from, r@[0]));
        }
        assert forall|i: int, j: int|
            0 <= i < j < r@.len() implies #[trigger] spec_move_priority(
            b,
            *ctx,
            tt_move,
            ply,
            prev_move,
            r@[i],
        ) >= #[trigger] spec_move_priority(b, *ctx, tt_move, ply, prev_move, r@[j]) by {
            assert(r@[i] == scored@[i].0 && r@[j] == scored@[j].0);
            assert(scored@[i].1 >= scored@[j].1);
        }
        match tt_move {
            Some(t) => {
                if spec_gen_legal(b, t.from, t) {
                    assert(r@.contains(t));
                    let x = choose|x: int| 0 <= x < r@.len() && r@[x] == t;
                    assert(spec_at(b, t.from.file as int, t.from.rank as int) is Some);
                    assert(pos_valid(t.from) && pos_valid(t.to));
                    lemma_priority_bands(b, *ctx, tt_move, ply, prev_move, t);
                    assert(spec_move_priority(b, *ctx, tt_move, ply, prev_move, r@[x]) >= 1000000);
                    if x > 0 {
                        assert(spec_move_priority(b, *ctx, tt_move, ply, prev_move, r@[0])
                            >= 1000000);
                        let h = r@[0];
                        assert(spec_gen_legal(b, h.from, h));
                        assert(spec_at(b, h.from.file as int, h.from.rank as int) is Some);
                        assert(pos_valid(h.from) && pos_valid(h.to));
                        lemma_priority_bands(b, *ctx, tt_move, ply, prev_move, h);
                        assert(tt_move == Some(h));
                        assert(r@[0] == t);
                    }
                }
            },
            None => {},
        }
    }
    r
}

/// The acceptable moves of the side to move that land on an occupied
/// square.
#[verifier::loop_isolation(false)]
pub fn generate_captures(board: &Board) -> (r: Vec<Move>)
    requires
        board@.wf(),
    ensures
        forall|i: int|
            0 <= i < r@.len() ==> #[trigger] spec_gen_legal(board@, r@[i].from, r@[i]) && spec_at(
                board@,
                r@[i].to.file as int,
                r@[i].to.rank as int,
            ) is Some,
        forall|m: Move|
            #[trigger] spec_gen_legal(board@, m.from, m) && spec_at(
                board@,
                m.to.file as int,
                m.to.rank as int,
            ) is Some ==> r@.contains(m),
{
    let mut captures: Vec<Move> = Vec::new();
    let mut fi: usize = 0;
    while fi < 64
        invariant
            fi <= 64,
            forall|i: int|
                #![trigger captures@[i]]
                0 <= i < captures@.len() ==> spec_gen_legal(board@, captures@[i].from, captures@[i])
                    && spec_at(
                    board@,
                    captures@[i].to.file as int,
                    captures@[i].to.rank as int,
                ) is Some,
            forall|m: Move|
                #[trigger] spec_gen_legal(board@, m.from, m) && spec_at(
                    board@,
                    m.to.file as int,
                    m.to.rank as int,
                ) is Some && sq_index(m.from.file as int, m.from.rank as int) < fi
                    ==> captures@.contains(m),
        decreases 64 - fi,
    {
        let from = Position { file: (fi % 8 + 1) as u8, rank: (fi / 8 + 1) as u8 };
        proof {
            assert(fi == 8 * (fi as int / 8) + (fi as int % 8));
            assert(sq_index(from.file as int, from.rank as int) == fi);
        }
        let vm = board.get_valid_moves(from);
        let mut k: usize = 0;
        while k < vm.len()
            invariant
                k <= vm@.len(),
                forall|i: int|
                    #![trigger captures@[i]]
                    0 <= i < captures@.len() ==> spec_gen_legal(
                        board@,
                        captures@[i].from,
                        captures@[i],
                    ) && spec_at(
                        board@,
                        captures@[i].to.file as int,
                        captures@[i].to.rank as int,
                    ) is Some,
                forall|m: Move|
                    #[trigger] spec_gen_legal(board@, m.from, m) && spec_at(
                        board@,
                        m.to.file as int,
                        m.to.rank as int,
                    ) is Some && sq_index(m.from.file as int, m.from.rank as int) < fi
                        ==> captures@.contains(m),
                forall|x: int|
                    0 <= x < k && spec_at(
                        board@,
                        (#[trigger] vm@[x]).to.file as int,
                        vm@[x].to.rank as int,
                    ) is Some ==> captures@.contains(vm@[x]),
            decreases vm@.len() - k,
        {
            let m = vm[k];
            proof {
                assert(spec_gen_legal(board@, from, m));
                assert(m.from == from);
            }
            if board.get_piece(m.to).is_some() {
                let ghost before = captures@;
                captures.push(m);
                proof {
                    assert(captures@[before.len() as int] == m);
                    assert(captures@.contains(m));
                    assert(spec_gen_legal(board@, m.from, m));
                    assert(spec_at(board@, m.to.file as int, m.to.rank as int) is Some);
                    assert forall|x: Move| before.contains(x) implies captures@.contains(x) by {
                        let w = choose|w: int| 0 <= w < before.len() && before[w] == x;
                        assert(captures@[w] == x);
                    }
                    assert forall|i2: int|
                        #![trigger captures@[i2]]
                        0 <= i2 < captures@.len() implies spec_gen_legal(
                        board@,
                        captures@[i2].from,
                        captures@[i2],
                    ) && spec_at(
                        board@,
                        captures@[i2].to.file as int,
                        captures@[i2].to.rank as int,
                    ) is Some by {
                        if i2 < before.len() {
                            assert(captures@[i2] == before[i2]);
                            assert(spec_gen_legal(board@, before[i2].from, before[i2]));
                        } else {
                            assert(captures@[i2] == m);
                        }
                    }
                }
            }
            k = k + 1;
        }
        proof {
            assert forall|m: Move|
                spec_gen_legal(board@, m.from, m) && spec_at(
                    board@,
                    m.to.file as int,
                    m.to.rank as int,
                ) is Some && sq_index(m.from.file as int, m.from.rank as int)
                == fi implies captures@.contains(m) by {
                lemma_sq_index(m.from.file as int, m.from.rank as int);
                assert(m.from == from);
                assert(vm@.contains(m));
                let x = choose|x: int| 0 <= x < vm@.len() && vm@[x] == m;
            }
        }
        fi = fi + 1;
    }
    proof {
        assert forall|m: Move| spec_gen_legal(board@, m.from, m) implies sq_index(
            m.from.file as int,
            m.from.rank as int,
        ) < 64 by {
            lemma_sq_index(m.from.file as int, m.from.rank as int);
        }
    }
    captures
}

/// Some enemy piece of lesser value has a valid move onto (`f`, `r`).
pub open spec fn spec_lesser_attacker(b: BoardModel, f: int, r: int, p: Piece) -> bool {
    exists|af: int, ar: int|
        1 <= af <= 8 && 1 <= ar <= 8 && match #[trigger] spec_at(b, af, ar) {
            Some(attacker) => attacker.color != p.color && spec_is_valid(
                b,
                spec_plain_move(af, ar, f, r),
            ) && spec_piece_value(attacker.piece_type) < spec_piece_value(p.piece_type),
            None => false,
        }
}

/// The piece on (`f`, `r`) hangs: a cheaper enemy piece could capture it
/// by the movement rules alone. An empty square hangs nothing.
pub open spec fn spec_piece_hanging(b: BoardModel, f: int, r: int) -> bool {
    match spec_at(b, f, r) {
        Some(p) => spec_lesser_attacker(b, f, r, p),
        None => false,
    }
}

/// Whether the piece on `pos` could be captured by a less valuable enemy
/// piece, judged by the movement rules alone.
#[verifier::loop_isolation(false)]
fn is_piece_hanging(board: &Board, pos: Position) -> (r: bool)
    requires
        board@.wf(),
    ensures
        r == spec_piece_hanging(board@, pos.file as int, pos.rank as int),
{
    let piece = match board.get_piece(pos) {
        Some(p) => p,
        None => {
            return false;
        },
    };
    let piece_value = get_piece_value(piece.piece_type);
    let mut min_attacker_value: i32 = i32::MAX;
    let mut i: usize = 0;
    while i < 64
        invariant
            i <= 64,
            min_attacker_value == i32::MAX || exists|af: int, ar: int|
                1 <= af <= 8 && 1 <= ar <= 8 && match #[trigger] spec_at(board@, af, ar) {
                    Some(attacker) => attacker.color != piece.color && spec_is_valid(
                        board@,
                        spec_plain_move(af, ar, pos.file as int, pos.rank as int),
                    ) && spec_piece_value(attacker.piece_type) == min_attacker_value,
                    None => false,
                },
            forall|af: int, ar: int|
                1 <= af <= 8 && 1 <= ar <= 8 && sq_index(af, ar) < i ==> match #[trigger] spec_at(
                    board@,
                    af,
                    ar,
                ) {
                    Some(attacker) => attacker.color != piece.color && spec_is_valid(
                        board@,
                        spec_plain_move(af, ar, pos.file as int, pos.rank as int),
                    ) ==> spec_piece_value(attacker.piece_type) >= min_attacker_value,
                    None => true,
                },
        decreases 64 - i,
    {
        let attack_pos = Position { file: (i % 8 + 1) as u8, rank: (i / 8 + 1) as u8 };
        proof {
            assert(i == 8 * (i as int / 8) + (i as int % 8));
            assert(sq_index(attack_pos.file as int, attack_pos.rank as int) == i);
        }
        if let Some(attacker) = board.get_piece(attack_pos) {
            if !(attacker.color == piece.color) {
                let amove = Move::new(attack_pos, pos);
                if amove.is_valid(board) {
                    proof {
                        assert(amove == spec_plain_move(
                            attack_pos.file as int,
                            attack_pos.rank as int,
                            pos.file as int,
                            pos.rank as int,
                        ));
                    }
                    let v = get_piece_value(attacker.piece_type);
                    if v < min_attacker_value {
                        min_attacker_value = v;
                    }
                }
            }
        }
        i = i + 1;
    }
    proof {
        assert forall|af: int, ar: int| 1 <= af <= 8 && 1 <= ar <= 8 implies sq_index(af, ar)
            < 64 by {
            lemma_sq_index(af, ar);
        }
    }
    min_attacker_value < piece_value
}

/// Some piece of either side hangs somewhere on the board.
pub open spec fn spec_any_hanging(b: BoardModel) -> bool {
    exists|f: int, r: int| 1 <= f <= 8 && 1 <= r <= 8 && #[trigger] spec_piece_hanging(b, f, r)
}

/// The side to move has an acceptable capture.
pub open spec fn spec_capture_available(b: BoardModel) -> bool {
    exists|m: Move|
        #[trigger] spec_gen_legal(b, m.from, m) && spec_at(
            b,
            m.to.file as int,
            m.to.rank as int,
        ) is Some
}

/// The side to move has acceptable captures from two different squares.
pub open spec fn spec_captures_on_two_squares(b: BoardModel) -> bool {
    exists|m1: Move, m2: Move|
        #[trigger] spec_gen_legal(b, m1.from, m1) && #[trigger] spec_gen_legal(b, m2.from, m2)
            && spec_at(b, m1.to.file as int, m1.to.rank as int) is Some && spec_at(
            b,
            m2.to.file as int,
            m2.to.rank as int,
        ) is Some && m1.from != m2.from
}

/// A queen of either color stands on the board.
pub open spec fn spec_queen_on_board(b: BoardModel) -> bool {
    exists|f: int, r: int|
        1 <= f <= 8 && 1 <= r <= 8 && match #[trigger] spec_at(b, f, r) {
            Some(p) => p.piece_type == PieceType::Queen,
            None => false,
        }
}

/// The position calls for careful tactical play: a piece hangs, captures
/// press from two different squares, or a queen is on the board with any
/// capture available.
pub open spec fn spec_tactical(b: BoardModel) -> bool {
    spec_any_hanging(b) || spec_captures_on_two_squares(b) || (spec_queen_on_board(b)
        && spec_capture_available(b))
}

/// Whether the position calls for careful tactical play; futility
/// pruning stays away from such positions.
#[verifier::loop_isolation(false)]
#[verifier::rlimit(100)]
#[verifier::spinoff_prover]
fn is_tactical_position(board: &Board) -> (r: bool)
    requires
        board@.wf(),
    ensures
        r == spec_tactical(board@),
{
    let mut has_queen = false;
    let mut capture_from: Option<Position> = None;
    let ghost mut capture_witness: Move = Move {
        from: Position { file: 1, rank: 1 },
        to: Position { file: 1, rank: 1 },
        move_type: crate::moves::MoveType::Normal,
        promotion: None,
    };
    let mut i: usize = 0;
    while i < 64
        invariant
            i <= 64,
            has_queen ==> spec_queen_on_board(board@),
            !has_queen ==> forall|f: int, r: int|
                1 <= f <= 8 && 1 <= r <= 8 && sq_index(f, r) < i ==> match #[trigger] spec_at(
                    board@,
                    f,
                    r,
                ) {
                    Some(p) => p.piece_type != PieceType::Queen,
                    None => true,
                },
            forall|f: int, r: int|
                1 <= f <= 8 && 1 <= r <= 8 && sq_index(f, r) < i ==> !(
                #[trigger] spec_piece_hanging(board@, f, r)),
            match capture_from {
                Some(fp) => spec_gen_legal(board@, capture_witness.from, capture_witness)
                    && spec_at(
                    board@,
                    capture_witness.to.file as int,
                    capture_witness.to.rank as int,
                ) is Some && capture_witness.from == fp && (forall|m: Move|
                    #[trigger] spec_gen_legal(board@, m.from, m) && spec_at(
                        board@,
                        m.to.file as int,
                        m.to.rank as int,
                    ) is Some && sq_index(m.from.file as int, m.from.rank as int) < i
                        ==> m.from == fp),
                None => forall|m: Move|
                    #[trigger] spec_gen_legal(board@, m.from, m) && sq_index(
                        m.from.file as int,
                        m.from.rank as int,
                    ) < i ==> spec_at(board@, m.to.file as int, m.to.rank as int) is None,
            },
        decreases 64 - i,
    {
        let pos = Position { file: (i % 8 + 1) as u8, rank: (i / 8 + 1) as u8 };
        proof {
            assert(i == 8 * (i as int / 8) + (i as int % 8));
            assert(sq_index(pos.file as int, pos.rank as int) == i);
        }
        if let Some(piece) = board.get_piece(pos) {
            if piece.piece_type == PieceType::Queen {
                has_queen = true;
                proof {
                    assert(spec_queen_on_board(board@));
                }
            }
            if is_piece_hanging(board, pos) {
                proof {
                    assert(spec_any_hanging(board@));
                }
                return true;
            }
        }
        let vm = board.get_valid_moves(pos);
        let mut k: usize = 0;
        while k < vm.len()
            invariant
                k <= vm@.len(),
                i < 64,
                pos.file as int == i as int % 8 + 1,
                pos.rank as int == i as int / 8 + 1,
                sq_index(pos.file as int, pos.rank as int) == i,
                has_queen ==> spec_queen_on_board(board@),
                match capture_from {
                    Some(fp) => spec_gen_legal(board@, capture_witness.from, capture_witness)
                        && spec_at(
                        board@,
                        capture_witness.to.file as int,
                        capture_witness.to.rank as int,
                    ) is Some && capture_witness.from == fp && (forall|m: Move|
                        #[trigger] spec_gen_legal(board@, m.from, m) && spec_at(
                            board@,
                            m.to.file as int,
                            m.to.rank as int,
                        ) is Some && sq_index(m.from.file as int, m.from.rank as int) < i
                            ==> m.from == fp) && (forall|x: int|
                        0 <= x < k && spec_at(
                            board@,
                            (#[trigger] vm@[x]).to.file as int,
                            vm@[x].to.rank as int,
                        ) is Some ==> vm@[x].from == fp),
                    None => (forall|m: Move|
                        #[trigger] spec_gen_legal(board@, m.from, m) && sq_index(
                            m.from.file as int,
                            m.from.rank as int,
                        ) < i ==> spec_at(board@, m.to.file as int, m.to.rank as int) is None)
                        && (forall|x: int|
                        0 <= x < k ==> spec_at(
                            board@,
                            (#[trigger] vm@[x]).to.file as int,
                            vm@[x].to.rank as int,
                        ) is None),
                },
            decreases vm@.len() - k,
        {
            let m = vm[k];
            proof {
                assert(spec_gen_legal(board@, pos, m));
                assert(m.from == pos);
            }
            if board.get_piece(m.to).is_some() {
                match capture_from {
                    None => {
                        capture_from = Some(pos);
                        proof {
                            capture_witness = m;
                        }
                    },
                    Some(fp) => {
                        if !(fp == pos) {
                            proof {
                                assert(spec_gen_legal(board@, m.from, m));
                                assert(capture_witness.from == fp && m.from == pos);
                                assert(spec_captures_on_two_squares(board@));
                            }
                            return true;
                        }
                    },
                }
            }
            k = k + 1;
        }
        proof {
            assert forall|m: Move|
                #[trigger] spec_gen_legal(board@, m.from, m) && sq_index(
                    m.from.file as int,
                    m.from.rank as int,
                ) == i && spec_at(board@, m.to.file as int, m.to.rank as int) is Some implies (
            match capture_from {
                Some(fp) => m.from == fp,
                None => false,
            }) by {
                lemma_sq_index(m.from.file as int, m.from.rank as int);
                assert(m.from == pos);
                assert(vm@.contains(m));
                let x = choose|x: int| 0 <= x < vm@.len() && vm@[x] == m;
            }
        }
        i = i + 1;
    }
    proof {
        assert forall|f: int, r: int| 1 <= f <= 8 && 1 <= r <= 8 implies sq_index(f, r) < 64 by {
            lemma_sq_index(f, r);
        }
        assert forall|m: Move| spec_gen_legal(board@, m.from, m) implies sq_index(
            m.from.file as int,
            m.from.rank as int,
        ) < 64 by {
            lemma_sq_index(m.from.file as int, m.from.rank as int);
        }
        assert(!spec_any_hanging(board@));
        if capture_from is None {
            assert(!spec_capture_available(board@));
            assert(!spec_captures_on_two_squares(board@));
        } else {
            assert(spec_capture_available(board@));
            if spec_captures_on_two_squares(board@) {
                let (m1, m2) = choose|m1: Move, m2: Move|
                    #[trigger] spec_gen_legal(board@, m1.from, m1) && #[trigger] spec_gen_legal(
                        board@,
                        m2.from,
                        m2,
                    ) && spec_at(board@, m1.to.file as int, m1.to.rank as int) is Some && spec_at(
                        board@,
                        m2.to.file as int,
                        m2.to.rank as int,
                    ) is Some && m1.from != m2.from;
                assert(false);
            }
        }
    }
    has_queen && capture_from.is_some()
}

/// A capture that can be played without any search: it takes a more
/// valuable piece with a less valuable one, the board accepts it, and it
/// does not leave the capturing piece hanging.
pub open spec fn spec_obvious_move(b: BoardModel, m: Move) -> bool {
    &&& match (
        spec_at(b, m.to.file as int, m.to.rank as int),
        spec_at(b, m.from.file as int, m.from.rank as int),
    ) {
        (Some(victim), Some(attacker)) => spec_piece_value(victim.piece_type) > spec_piece_value(
            attacker.piece_type,
        ),
        _ => false,
    }
    &&& spec_make_move_ok(b, m)
    &&& !spec_piece_hanging(spec_make_move(b, m), m.to.file as int, m.to.rank as int)
}

/// Looks for a capture that wins material outright and does not leave
/// the capturing piece hanging; such a move can be played without any
/// search. Whatever is returned came from the given list and is such a
/// capture; nothing is returned only when no listed move qualifies.
#[verifier::loop_isolation(false)]
pub fn find_obvious_move(board: &Board, moves: &Vec<Move>) -> (r: Option<Move>)
    requires
        board@.wf(),
        forall|i: int|
            0 <= i < moves@.len() ==> #[trigger] spec_gen_legal(board@, moves@[i].from, moves@[i]),
    ensures
        match r {
            Some(m) => moves@.contains(m) && spec_obvious_move(board@, m),
            None => forall|k: int|
                0 <= k < moves@.len() ==> !spec_obvious_move(board@, #[trigger] moves@[k]),
        },
{
    let mut i: usize = 0;
    while i < moves.len()
        invariant
            i <= moves@.len(),
            forall|k: int| 0 <= k < i ==> !spec_obvious_move(board@, #[trigger] moves@[k]),
        decreases moves@.len() - i,
    {
        let mv = moves[i];
        let mut qualifies = false;
        if let Some(victim) = board.get_piece(mv.to) {
            if let Some(attacker) = board.get_piece(mv.from) {
                if get_piece_value(victim.piece_type) > get_piece_value(attacker.piece_type) {
                    let mut new_board = board.duplicate();
                    if new_board.make_move(mv).is_ok() {
                        if !is_piece_hanging(&new_board, mv.to) {
                            qualifies = true;
                        }
                    }
                }
            }
        }
        if qualifies {
            proof {
                assert(moves@[i as int] == mv);
                assert(moves@.contains(mv));
            }
            return Some(mv);
        }
        i = i + 1;
    }
    None
}

/// The capture-only search run below the horizon: stand pat on the
/// static evaluation, prune hopeless positions, then try the promising
/// captures in exchange order until a cutoff. The result always lies
/// within the mate bound.
#[verifier::loop_isolation(false)]
pub fn quiescence_search(
    board: &Board,
    alpha: i32,
    beta: i32,
    qdepth: u8,
    ctx: &mut SearchContext,
) -> (r: i32)
    requires
        board@.wf(),
        old(ctx).wf(),
        -20000 <= alpha < beta <= 20000,
    ensures
        -20000 <= r <= 20000,
        final(ctx).wf(),
        final(ctx).deadline_ms == old(ctx).deadline_ms,
        !old(ctx).stopped && qdepth == 0 ==> r as int == spec_evaluate(board@),
        !old(ctx).stopped && qdepth >= 1 && spec_evaluate(board@) >= beta ==> r == beta,
        !old(ctx).stopped && qdepth >= 1 && spec_evaluate(board@) < beta && spec_evaluate(board@)
            >= alpha - 200 && (forall|m: Move|
            !(#[trigger] spec_gen_legal(board@, m.from, m) && spec_at(
                board@,
                m.to.file as int,
                m.to.rank as int,
            ) is Some)) ==> r as int == spec_evaluate(board@),
    decreases qdepth,
{
    if ctx.stopped {
        return evaluate_position(board);
    }
    poll_clock(ctx);
    let stand_pat = evaluate_position(board);
    if qdepth == 0 {
        return stand_pat;
    }
    if stand_pat >= beta {
        return beta;
    }
    if stand_pat < alpha - DELTA_MARGIN {
        return alpha;
    }
    let mut a: i32 = if stand_pat > alpha {
        stand_pat
    } else {
        alpha
    };
    let captures = generate_captures(board);
    proof {
        if captures@.len() > 0 {
            assert(spec_gen_legal(board@, captures@[0].from, captures@[0]));
            assert(spec_at(
                board@,
                captures@[0].to.file as int,
                captures@[0].to.rank as int,
            ) is Some);
        }
    }
    if captures.len() == 0 {
        return stand_pat;
    }
    // Order the captures: exchange estimate first, victim value second.
    let mut scored: Vec<(Move, i32)> = Vec::new();
    let mut k: usize = 0;
    while k < captures.len()
        invariant
            k <= captures@.len(),
        decreases captures@.len() - k,
    {
        let m = captures[k];
        let see = static_exchange_evaluation(board, m);
        let mvv = get_mvv_lva_score(board, m);
        scored.push((m, see * 1000 + mvv));
        k = k + 1;
    }
    sort_scored(&mut scored);
    let mut i: usize = 0;
    while i < scored.len()
        invariant
            board@.wf(),
            ctx.wf(),
            ctx.deadline_ms == old(ctx).deadline_ms,
            i <= scored@.len(),
            -20000 <= a < beta <= 20000,
        decreases scored@.len() - i,
    {
        if ctx.stopped {
            return a;
        }
        let capture = scored[i].0;
        // Skip captures that lose material outright.
        let see = static_exchange_evaluation(board, capture);
        if see >= -50 {
            let mut new_board = board.duplicate();
            if new_board.make_move(capture).is_ok() {
                let score = -quiescence_search(&new_board, -beta, -a, qdepth - 1, ctx);
                if score > a {
                    a = score;
                }
                if a >= beta {
                    return beta;
                }
            }
        }
        i = i + 1;
    }
    a
}

/// One node of the principal-variation search. Terminal nodes are
/// scored first: checkmate by the distance from the root, stalemate as
/// level. The horizon falls through to the quiescence search; otherwise
/// the cache is consulted (a deep-enough exact entry settles a node,
/// though never a principal-variation node, which always searches and
/// caches its own result), a null move and futility may prune, and the
/// ordered moves are searched with narrowing windows, with late quiet
/// moves that neither capture nor give check first tried one ply
/// shallower. The result always lies within the mate bound.
#[verifier::loop_isolation(false)]
#[verifier::rlimit(100)]
pub fn principal_variation_search(
    board: &Board,
    depth: u8,
    alpha: i32,
    beta: i32,
    ply: u8,
    is_pv_node: bool,
    prev_move: Option<Move>,
    ctx: &mut SearchContext,
) -> (r: i32)
    requires
        board@.wf(),
        old(ctx).wf(),
        -20000 <= alpha < beta <= 20000,
        depth <= 32,
        ply + depth <= 64,
        match prev_move {
            Some(p) => pos_valid(p.from) && pos_valid(p.to),
            None => true,
        },
    ensures
        -20000 <= r <= 20000,
        final(ctx).wf(),
        final(ctx).deadline_ms == old(ctx).deadline_ms,
        !old(ctx).stopped && !spec_has_legal_move(board@) ==> r as int == (if spec_in_check(
            board@,
            board@.current_turn,
        ) {
            -20000 + ply as int
        } else {
            0int
        }),
        ({
            let key = spec_position_key(board@);
            !old(ctx).stopped && depth >= 1 && spec_has_legal_move(board@) && !is_pv_node
                && old(ctx).tt.contents().contains_key(key)
                && old(ctx).tt.contents()[key].depth >= depth
                && old(ctx).tt.contents()[key].entry_type == EntryType::Exact
                ==> r as int == spec_adjust_mate(
                old(ctx).tt.contents()[key].score as int,
                depth as int,
            )
        }),
        ({
            let key = spec_position_key(board@);
            is_pv_node && !old(ctx).stopped && depth >= 1 && spec_has_legal_move(board@)
                ==> final(ctx).tt.contents().contains_key(key)
                && final(ctx).tt.contents()[key].depth == depth
                && final(ctx).tt.contents()[key].score == r
        }),
    decreases depth,
{
    if ctx.stopped {
        return evaluate_position(board);
    }
    poll_clock(ctx);
    // Terminal states come first, before the cache or any pruning.
    if !board.has_any_legal_move() {
        if board.is_in_check(board.current_turn()) {
            return -MATE_SCORE + (ply as i32);
        }
        return 0;
    }
    if depth == 0 {
        return quiescence_search(board, alpha, beta, QUIESCENCE_DEPTH, ctx);
    }
    let pos_key = get_position_key(board);
    let original_alpha = alpha;
    let mut current_alpha = alpha;
    let mut best_move: Option<Move> = None;
    let mut best_score: i32 = -MATE_SCORE;

    // Consult the cache; a deep-enough entry may settle or narrow the
    // window, but never on a principal-variation node.
    if let Some(entry) = ctx.tt.lookup(pos_key) {
        if entry.depth >= depth && !is_pv_node {
            let score = adjust_mate_score(entry.score, depth);
            match entry.entry_type {
                EntryType::Exact => {
                    return score;
                },
                EntryType::LowerBound => {
                    if score > current_alpha {
                        current_alpha = score;
                    }
                },
                EntryType::UpperBound => {
                    if score <= alpha {
                        return score;
                    }
                },
            }
            if current_alpha >= beta {
                return score;
            }
        }
        best_move = entry.best_move;
    }
    let in_check = board.is_in_check(board.current_turn());

    // Null move: if even after passing the turn the position refutes
    // beta, a real move would too. Unsafe in check and in endgames.
    if !is_pv_node && depth >= 4 && !in_check && !is_endgame_phase(board) {
        let mut null_board = board.duplicate();
        null_board.current_turn = null_board.current_turn.opposite();
        null_board.last_move = None;
        let null_score = -principal_variation_search(
            &null_board,
            depth - 1 - NULL_MOVE_R,
            -beta,
            -beta + 1,
            ply + 1,
            false,
            None,
            ctx,
        );
        if null_score >= beta {
            return beta;
        }
    }
    // Futility: near the leaves, with no tactical complications, a quiet
    // position whose evaluation plus a margin cannot reach alpha is not
    // expanded.
    if depth <= 3 && !is_pv_node && !in_check && !is_tactical_position(board) {
        let ev = evaluate_position(board);
        let margin: i32 = if depth == 1 {
            300
        } else if depth == 2 {
            500
        } else {
            800
        };
        if ev + margin <= current_alpha {
            return ev;
        }
    }
    let moves = generate_ordered_moves(board, best_move, ply, prev_move, ctx);
    proof {
        assert(moves@.len() > 0);
    }
    let mut searched_moves: usize = 0;
    let mut i: usize = 0;
    while i < moves.len()
        invariant
            board@.wf(),
            ctx.wf(),
            ctx.deadline_ms == old(ctx).deadline_ms,
            i <= moves@.len(),
            -20000 <= current_alpha < beta <= 20000,
            -20000 <= best_score <= 20000,
            depth <= 32,
            1 <= depth,
            ply + depth <= 64,
            searched_moves <= i,
            forall|k: int|
                0 <= k < moves@.len() ==> #[trigger] spec_gen_legal(board@, moves@[k].from,
                moves@[k]),
        decreases moves@.len() - i,
    {
        let mv = moves[i];
        proof {
            assert(spec_gen_legal(board@, mv.from, mv));
            assert(spec_at(board@, mv.from.file as int, mv.from.rank as int) is Some);
        }
        let mut new_board = board.duplicate();
        if new_board.make_move(mv).is_ok() {
            searched_moves = searched_moves + 1;
            let score: i32 = if searched_moves == 1 {
                -principal_variation_search(
                    &new_board,
                    depth - 1,
                    -beta,
                    -current_alpha,
                    ply + 1,
                    is_pv_node,
                    Some(mv),
                    ctx,
                )
            } else {
                // Late quiet moves that neither capture nor give check
                // are first tried one ply shallower with a closed window.
                let gives_check = new_board.is_in_check(new_board.current_turn());
                let reduction: u8 = if depth >= REDUCTION_LIMIT && searched_moves
                    > FULL_DEPTH_MOVES && !is_capture(board, mv) && !gives_check {
                    1
                } else {
                    0
                };
                let mut s = -principal_variation_search(
                    &new_board,
                    depth - 1 - reduction,
                    -(current_alpha + 1),
                    -current_alpha,
                    ply + 1,
                    false,
                    Some(mv),
                    ctx,
                );
                if s > current_alpha && s < beta {
                    s = -principal_variation_search(
                        &new_board,
                        depth - 1,
                        -beta,
                        -current_alpha,
                        ply + 1,
                        is_pv_node,
                        Some(mv),
                        ctx,
                    );
                }
                s
            };
            if score > best_score {
                best_score = score;
                best_move = Some(mv);
                if score > current_alpha {
                    current_alpha = score;
                }
            }
            if current_alpha >= beta {
                // A cutoff by a quiet move teaches the ordering tables.
                if !is_capture(board, mv) {
                    update_history(&mut ctx.history, mv, depth);
                    update_killer_moves(&mut ctx.killers, ply, mv);
                    if let Some(prev) = prev_move {
                        let idx = move_index(prev);
                        ctx.counters.set(idx, Some(mv));
                    }
                }
                let entry_type = if best_score <= original_alpha {
                    EntryType::UpperBound
                } else if best_score >= beta {
                    EntryType::LowerBound
                } else {
                    EntryType::Exact
                };
                ctx.tt.store(
                    pos_key,
                    TTEntry { depth, score: best_score, entry_type, best_move },
                );
                return best_score;
            }
        }
        i = i + 1;
    }
    let entry_type = if best_score <= original_alpha {
        EntryType::UpperBound
    } else if best_score >= beta {
        EntryType::LowerBound
    } else {
        EntryType::Exact
    };
    ctx.tt.store(pos_key, TTEntry { depth, score: best_score, entry_type, best_move });
    best_score
}

/// Searches the root's legal moves at a fixed depth and returns the best
/// one with its score. Whenever the list is not empty, some member of it
/// is returned. The cache is never allowed to shortcut the root itself.
#[verifier::loop_isolation(false)]
#[verifier::rlimit(60)]
pub fn search_root(
    board: &Board,
    moves: &Vec<Move>,
    depth: u8,
    alpha: i32,
    beta: i32,
    ctx: &mut SearchContext,
) -> (r: (Option<Move>, i32))
    requires
        board@.wf(),
        old(ctx).wf(),
        -20000 <= alpha < beta <= 20000,
        1 <= depth <= 32,
        forall|k: int|
            0 <= k < moves@.len() ==> #[trigger] spec_gen_legal(board@, moves@[k].from,
            moves@[k]),
    ensures
        moves@.len() > 0 ==> r.0 is Some && moves@.contains(r.0->0),
        -20000 <= r.1 <= 20000,
        final(ctx).wf(),
        final(ctx).deadline_ms == old(ctx).deadline_ms,
{
    let mut best_move: Option<Move> = None;
    let mut best_score: i32 = -MATE_SCORE;
    let mut current_alpha = alpha;
    let mut searched_moves: usize = 0;
    let mut i: usize = 0;
    while i < moves.len()
        invariant
            board@.wf(),
            ctx.wf(),
            ctx.deadline_ms == old(ctx).deadline_ms,
            i <= moves@.len(),
            -20000 <= current_alpha < beta <= 20000,
            -20000 <= best_score <= 20000,
            1 <= depth <= 32,
            searched_moves <= i,
            i > 0 ==> best_move is Some,
            best_move matches Some(bm) ==> exists|k: int|
                0 <= k < moves@.len() && moves@[k] == bm,
            forall|k: int|
                0 <= k < moves@.len() ==> #[trigger] spec_gen_legal(board@, moves@[k].from,
                moves@[k]),
        decreases moves@.len() - i,
    {
        let mv = moves[i];
        proof {
            assert(spec_gen_legal(board@, mv.from, mv));
        }
        let mut new_board = board.duplicate();
        let move_result = new_board.make_move(mv);
        proof {
            assert(move_result is Ok);
        }
        if move_result.is_ok() {
            searched_moves = searched_moves + 1;
            let score: i32 = if searched_moves == 1 {
                -principal_variation_search(
                    &new_board,
                    depth - 1,
                    -beta,
                    -current_alpha,
                    1,
                    true,
                    Some(mv),
                    ctx,
                )
            } else {
                let mut s = -principal_variation_search(
                    &new_board,
                    depth - 1,
                    -(current_alpha + 1),
                    -current_alpha,
                    1,
                    false,
                    Some(mv),
                    ctx,
                );
                if s > current_alpha && s < beta {
                    s = -principal_variation_search(
                        &new_board,
                        depth - 1,
                        -beta,
                        -current_alpha,
                        1,
                        true,
                        Some(mv),
                        ctx,
                    );
                }
                s
            };
            if best_move.is_none() || score > best_score {
                best_score = score;
                best_move = Some(mv);
                if score > current_alpha && score < beta {
                    current_alpha = score;
                }
            }
            proof {
                assert(moves@[i as int] == mv);
                assert(best_move is Some);
                assert(exists|k: int|
                    0 <= k < moves@.len() && moves@[k] == best_move->0);
                assert(moves@.contains(best_move->0));
            }
            if current_alpha >= beta {
                return (best_move, best_score);
            }
        }
        i = i + 1;
    }
    proof {
        if moves@.len() > 0 {
            assert(best_move is Some);
            assert(moves@.contains(best_move->0));
        }
    }
    (best_move, best_score)
}

/// Finds the best move for the side to move within a time budget, given
/// in milliseconds, with an optional estimate of the moves left to play.
///
/// `None` comes back exactly when the side to move has no move at all,
/// which the caller must read as checkmate or stalemate. Whenever some
/// move exists, a move that `make_move` accepts is returned, whatever
/// the budget: the first iteration always completes. A single possible
/// move, or a capture that obviously wins material, is returned without
/// searching; otherwise the search deepens iteration by iteration inside
/// an aspiration window until the budget, the maximum depth or a forced
/// mate ends it, keeping the best move of the last completed iteration.
#[verifier::loop_isolation(false)]
pub fn search_best_move(board: &Board, total_time_ms: u64, moves_left: Option<u32>) -> (r: Option<
    Move,
>)
    requires
        board@.wf(),
    ensures
        r is None <==> !spec_has_legal_move(board@),
        match r {
            Some(m) => spec_gen_legal(board@, m.from, m),
            None => true,
        },
{
    let time_manager = TimeManager::new(total_time_ms, moves_left);
    let mut ctx = SearchContext::new();
    let moves = generate_ordered_moves(board, None, 0, None, &ctx);
    if moves.len() == 0 {
        return None;
    }
    if moves.len() == 1 {
        let only = moves[0];
        proof {
            assert(spec_gen_legal(board@, only.from, only));
        }
        return Some(only);
    }
    if let Some(obvious) = find_obvious_move(board, &moves) {
        proof {
            let k = choose|k: int| 0 <= k < moves@.len() && moves@[k] == obvious;
            assert(spec_gen_legal(board@, moves@[k].from, moves@[k]));
        }
        return Some(obvious);
    }
    // The first iteration runs without a deadline, so that a move is
    // always found whatever the budget.
    ctx.deadline_ms = u64::MAX;
    let first = search_root(board, &moves, 1, -MATE_SCORE, MATE_SCORE, &mut ctx);
    let mut best_move = first.0;
    let mut best_score = first.1;
    ctx.deadline_ms = time_manager.deadline_ms();
    let mut window: i32 = WINDOW_SIZE_INIT;
    let mut depth: u8 = 2;
    let mut done = false;
    while depth <= MAX_DEPTH && !done
        invariant
            board@.wf(),
            ctx.wf(),
            best_move is Some && moves@.contains(best_move->0),
            -20000 <= best_score <= 20000,
            100 <= window <= 20000,
            2 <= depth,
            forall|k: int|
                0 <= k < moves@.len() ==> #[trigger] spec_gen_legal(board@, moves@[k].from,
                moves@[k]),
        decreases 16 - depth, (if done {
            0int
        } else {
            1int
        }),
    {
        if !time_manager.should_continue() {
            done = true;
        } else {
            if ctx.tt.len() > MAX_TT_SIZE {
                ctx.tt.clear();
            }
            // An aspiration window around the previous score.
            let alpha: i32 = if best_score - window < -20000 {
                -20000
            } else {
                best_score - window
            };
            let beta: i32 = if best_score + window > 20000 {
                20000
            } else {
                best_score + window
            };
            let attempt = search_root(board, &moves, depth, alpha, beta, &mut ctx);
            if ctx.stopped {
                // Time ran out inside this depth: keep the best move of
                // the last completed iteration.
                done = true;
            } else {
                let settled: (Option<Move>, i32) = if attempt.1 <= alpha || attempt.1 >= beta {
                    // The score fell outside the window: search this
                    // depth again with the full window.
                    let retry = search_root(
                        board,
                        &moves,
                        depth,
                        -MATE_SCORE,
                        MATE_SCORE,
                        &mut ctx,
                    );
                    retry
                } else {
                    attempt
                };
                if ctx.stopped {
                    done = true;
                } else {
                    best_move = settled.0;
                    best_score = settled.1;
                    if best_score > MATE_SCORE - 1000 || best_score < -(MATE_SCORE - 1000) {
                        // A forced mate was found; no need to look deeper.
                        done = true;
                    }
                    let grown = window + window / 4;
                    window = if grown > 20000 {
                        20000
                    } else {
                        grown
                    };
                    depth = depth + 1;
                }
            }
        }
    }
    best_move
}

} // verus!
