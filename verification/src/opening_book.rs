//! The opening book: a weighted dictionary from early positions to moves
//! worth playing, consulted before any search. A book move is chosen at
//! random in proportion to its weight.

use vstd::prelude::*;
use std::collections::HashMap;
use crate::position::Position;
use crate::moves::Move;
use crate::board::Board;
use crate::tt::{get_position_key, spec_position_key};

verus! {

broadcast use vstd::std_specs::hash::group_hash_axioms;

/// Relies on rand::random: a value drawn from the thread-local generator.
/// Nothing is promised of the result; the weighted choice takes it as an
/// argument and is verified for every value of it.
pub assume_specification<T>[ rand::random::<T> ]() -> (r: T)
    where
        rand::distributions::Standard: rand::distributions::Distribution<T>,
;

/// One book line: a move and the weight with which it is played.
#[derive(Debug, Clone, Copy)]
pub struct BookMove {
    pub mv: Move,
    pub weight: u32,
}

/// The book: position keys mapped to their weighted moves.
pub struct OpeningBook {
    pub positions: HashMap<u64, Vec<BookMove>>,
}

/// The total weight of the first `i` entries of a bucket.
pub open spec fn spec_weight_prefix(s: Seq<BookMove>, i: int) -> int
    decreases i,
{
    if i <= 0 {
        0
    } else {
        spec_weight_prefix(s, i - 1) + s[i - 1].weight
    }
}

impl OpeningBook {
    /// The mathematical contents of the book.
    pub open spec fn contents(self) -> Map<u64, Vec<BookMove>> {
        self.positions@
    }

    /// Every bucket holds at most 64 lines, each with positive weight, so
    /// that weight sums stay small.
    pub open spec fn wf(self) -> bool {
        forall|k: u64|
            self.contents().contains_key(k) ==> (#[trigger] self.contents()[k])@.len() <= 64
                && forall|i: int|
                0 <= i < self.contents()[k]@.len() ==> (#[trigger] self.contents()[k]@[i]).weight
                    >= 1
    }

    /// A book primed with common opening lines.
    pub fn new() -> (r: OpeningBook)
        ensures
            r.wf(),
    {
        let mut book = OpeningBook { positions: HashMap::new() };
        book.initialize_common_openings();
        book
    }

    /// Adds a line for a position: the move is appended to the position's
    /// bucket unless its weight is zero or the bucket is already full.
    pub fn add_line(&mut self, board: &Board, mv: Move, weight: u32)
        requires
            old(self).wf(),
            board@.wf(),
        ensures
            final(self).wf(),
            weight >= 1 && (!old(self).contents().contains_key(spec_position_key(board@)) || old(
                self,
            ).contents()[spec_position_key(board@)]@.len() < 64) ==> {
                let k = spec_position_key(board@);
                &&& final(self).contents().contains_key(k)
                &&& final(self).contents()[k]@.len() > 0
                &&& final(self).contents()[k]@.last() == (BookMove { mv, weight })
            },
    {
        if weight == 0 {
            return ;
        }
        let key = get_position_key(board);
        let mut bucket: Vec<BookMove> = match self.positions.remove(&key) {
            Some(v) => v,
            None => Vec::new(),
        };
        if bucket.len() < 64 {
            bucket.push(BookMove { mv, weight });
        }
        self.positions.insert(key, bucket);
        proof {
            assert forall|k: u64| self.contents().contains_key(k) implies (
            #[trigger] self.contents()[k])@.len() <= 64 && forall|i: int|
                0 <= i < self.contents()[k]@.len() ==> (#[trigger] self.contents()[k]@[i]).weight
                    >= 1 by {
                if k != key {
                    assert(old(self).contents().contains_key(k));
                    assert(self.contents()[k] == old(self).contents()[k]);
                }
            }
        }
    }

    /// The book move for this position, if the book knows it: one of the
    /// position's lines, drawn with probability proportional to its
    /// weight. `None` exactly when the book has nothing for the position.
    pub fn get_book_move(&self, board: &Board) -> (r: Option<Move>)
        requires
            self.wf(),
            board@.wf(),
        ensures
            ({
                let k = spec_position_key(board@);
                match r {
                    Some(m) => self.contents().contains_key(k) && exists|i: int|
                        0 <= i < self.contents()[k]@.len() && (#[trigger] self.contents()[k]@[i]).mv
                            == m,
                    None => !self.contents().contains_key(k) || self.contents()[k]@.len() == 0,
                }
            }),
    {
        let key = get_position_key(board);
        let bucket = match self.positions.get(&key) {
            Some(b) => b,
            None => {
                return None;
            },
        };
        if bucket.len() == 0 {
            return None;
        }
        proof {
            assert(self.contents().contains_key(key));
            assert(self.contents()[key]@ == bucket@);
        }
        let total = total_weight(bucket);
        let drawn: u32 = rand::random();
        let chosen: u64 = (drawn as u64) % total;
        let idx = pick_weighted(bucket, chosen);
        Some(bucket[idx].mv)
    }

    /// Fills the book with a handful of well-known opening lines for both
    /// sides: the main king's-pawn and queen's-pawn openings and a few
    /// first-move alternatives, each with a weight reflecting how often it
    /// should be played.
    pub fn initialize_common_openings(&mut self)
        requires
            old(self).wf(),
        ensures
            final(self).wf(),
    {
        let board = Board::new();

        // The king's-pawn opening and the open game behind it.
        let e4_move = Move::new(Position { rank: 2, file: 5 }, Position { rank: 4, file: 5 });
        self.add_line(&board, e4_move, 100);

        let mut e4_board = board.duplicate();
        if e4_board.make_move(e4_move).is_err() {
            return ;
        }
        let e5_move = Move::new(Position { rank: 7, file: 5 }, Position { rank: 5, file: 5 });
        self.add_line(&e4_board, e5_move, 100);

        let mut open_game_board = e4_board.duplicate();
        if open_game_board.make_move(e5_move).is_err() {
            return ;
        }
        let nf3_move = Move::new(Position { rank: 1, file: 7 }, Position { rank: 3, file: 6 });
        self.add_line(&open_game_board, nf3_move, 100);

        let mut ruy_board = open_game_board.duplicate();
        if ruy_board.make_move(nf3_move).is_err() {
            return ;
        }
        let nc6_move = Move::new(Position { rank: 8, file: 2 }, Position { rank: 6, file: 3 });
        self.add_line(&ruy_board, nc6_move, 100);

        let mut nc6_board = ruy_board.duplicate();
        if nc6_board.make_move(nc6_move).is_err() {
            return ;
        }
        // The two main third moves: one bishop to b5, one to c4.
        self.add_line(
            &nc6_board,
            Move::new(Position { rank: 1, file: 6 }, Position { rank: 5, file: 2 }),
            100,
        );
        self.add_line(
            &nc6_board,
            Move::new(Position { rank: 1, file: 6 }, Position { rank: 4, file: 3 }),
            80,
        );

        // The Sicilian defense against the king's pawn.
        let c5_move = Move::new(Position { rank: 7, file: 3 }, Position { rank: 5, file: 3 });
        self.add_line(&e4_board, c5_move, 90);

        let mut sicilian_board = e4_board.duplicate();
        if sicilian_board.make_move(c5_move).is_err() {
            return ;
        }
        let nf3_sicilian = Move::new(Position { rank: 1, file: 7 }, Position { rank: 3, file: 6 });
        self.add_line(&sicilian_board, nf3_sicilian, 100);

        let mut open_sicilian = sicilian_board.duplicate();
        if open_sicilian.make_move(nf3_sicilian).is_err() {
            return ;
        }
        self.add_line(
            &open_sicilian,
            Move::new(Position { rank: 7, file: 4 }, Position { rank: 6, file: 4 }),
            90,
        );
        self.add_line(
            &open_sicilian,
            Move::new(Position { rank: 8, file: 2 }, Position { rank: 6, file: 3 }),
            80,
        );

        // The queen's-pawn opening and the queen's gambit.
        let d4_move = Move::new(Position { rank: 2, file: 4 }, Position { rank: 4, file: 4 });
        self.add_line(&board, d4_move, 90);

        let mut d4_board = board.duplicate();
        if d4_board.make_move(d4_move).is_err() {
            return ;
        }
        let d5_move = Move::new(Position { rank: 7, file: 4 }, Position { rank: 5, file: 4 });
        self.add_line(&d4_board, d5_move, 100);

        let mut qg_board = d4_board.duplicate();
        if qg_board.make_move(d5_move).is_err() {
            return ;
        }
        let c4_move = Move::new(Position { rank: 2, file: 3 }, Position { rank: 4, file: 3 });
        self.add_line(&qg_board, c4_move, 100);

        let mut qg_offered = qg_board.duplicate();
        if qg_offered.make_move(c4_move).is_err() {
            return ;
        }
        // Declining with the king's pawn, or accepting the gambit pawn.
        self.add_line(
            &qg_offered,
            Move::new(Position { rank: 7, file: 5 }, Position { rank: 6, file: 5 }),
            90,
        );
        self.add_line(
            &qg_offered,
            Move::new(Position { rank: 5, file: 4 }, Position { rank: 4, file: 3 }),
            70,
        );

        // The Indian defense against the queen's pawn.
        let nf6_move = Move::new(Position { rank: 8, file: 7 }, Position { rank: 6, file: 6 });
        self.add_line(&d4_board, nf6_move, 90);

        let mut indian_board = d4_board.duplicate();
        if indian_board.make_move(nf6_move).is_err() {
            return ;
        }
        self.add_line(
            &indian_board,
            Move::new(Position { rank: 2, file: 3 }, Position { rank: 4, file: 3 }),
            90,
        );

        // Quieter first moves: the knight's opening and the English.
        self.add_line(
            &board,
            Move::new(Position { rank: 1, file: 7 }, Position { rank: 3, file: 6 }),
            60,
        );
        self.add_line(
            &board,
            Move::new(Position { rank: 2, file: 3 }, Position { rank: 4, file: 3 }),
            50,
        );
    }
}

/// Sums a bucket's weights.
fn total_weight(bucket: &Vec<BookMove>) -> (r: u64)
    requires
        bucket@.len() <= 64,
        forall|i: int| 0 <= i < bucket@.len() ==> (#[trigger] bucket@[i]).weight >= 1,
    ensures
        r == spec_weight_prefix(bucket@, bucket@.len() as int),
        r >= bucket@.len(),
{
    let mut acc: u64 = 0;
    let mut i: usize = 0;
    while i < bucket.len()
        invariant
            i <= bucket@.len(),
            bucket@.len() <= 64,
            forall|k: int| 0 <= k < bucket@.len() ==> (#[trigger] bucket@[k]).weight >= 1,
            acc == spec_weight_prefix(bucket@, i as int),
            i <= acc <= i * 0x100000000,
        decreases bucket@.len() - i,
    {
        proof {
            assert((i + 1) * 0x100000000 == i * 0x100000000 + 0x100000000) by (nonlinear_arith);
        }
        acc = acc + (bucket[i].weight as u64);
        i = i + 1;
    }
    acc
}

/// The index that a draw of `chosen` lands on: weights are laid end to
/// end, and the entry whose span holds `chosen` is picked.
fn pick_weighted(bucket: &Vec<BookMove>, chosen: u64) -> (idx: usize)
    requires
        bucket@.len() >= 1,
        bucket@.len() <= 64,
        forall|i: int| 0 <= i < bucket@.len() ==> (#[trigger] bucket@[i]).weight >= 1,
        chosen < spec_weight_prefix(bucket@, bucket@.len() as int),
    ensures
        idx < bucket@.len(),
        spec_weight_prefix(bucket@, idx as int) <= chosen < spec_weight_prefix(
            bucket@,
            idx as int + 1,
        ),
{
    let mut acc: u64 = 0;
    let mut i: usize = 0;
    while i < bucket.len()
        invariant
            i <= bucket@.len(),
            bucket@.len() <= 64,
            forall|k: int| 0 <= k < bucket@.len() ==> (#[trigger] bucket@[k]).weight >= 1,
            acc == spec_weight_prefix(bucket@, i as int),
            acc <= chosen,
            chosen < spec_weight_prefix(bucket@, bucket@.len() as int),
            i <= acc <= i * 0x100000000,
        decreases bucket@.len() - i,
    {
        proof {
            assert((i + 1) * 0x100000000 == i * 0x100000000 + 0x100000000) by (nonlinear_arith);
        }
        let w = bucket[i].weight as u64;
        if chosen < acc + w {
            return i;
        }
        acc = acc + w;
        i = i + 1;
    }
    proof {
        assert(false);
    }
    0
}

} // verus!
