//! The position cache (transposition table): scores and best moves found
//! at positions already searched, keyed by an integer encoding of the
//! piece placement and the side to move.

use vstd::prelude::*;
use std::collections::HashMap;
use crate::piece::{Piece, PieceType, Color};
use crate::moves::Move;
use crate::board::{Board, BoardModel};

verus! {

broadcast use vstd::std_specs::hash::group_hash_axioms;

/// How far a cached score can be trusted.
#[derive(Debug, Clone, Copy, PartialEq, Eq, Structural)]
pub enum EntryType {
    Exact,
    LowerBound,
    UpperBound,
}

/// One cached search result: how deep the node was searched, the score it
/// returned, how that score bounds the true value, and the move that
/// scored best.
#[derive(Debug, Clone, Copy)]
pub struct TTEntry {
    pub depth: u8,
    pub score: i32,
    pub entry_type: EntryType,
    pub best_move: Option<Move>,
}

/// An entry the table accepts: its score lies within the mate bound.
pub open spec fn spec_entry_ok(e: TTEntry) -> bool {
    -20000 <= e.score <= 20000
}

/// A code below 13 for what a square holds, distinguishing color and kind.
pub open spec fn spec_square_code(o: Option<Piece>) -> u64 {
    match o {
        None => 0,
        Some(p) => {
            let k: u64 = match p.piece_type {
                PieceType::Pawn => 1,
                PieceType::Knight => 2,
                PieceType::Bishop => 3,
                PieceType::Rook => 4,
                PieceType::Queen => 5,
                PieceType::King => 6,
            };
            if p.color == Color::White {
                k
            } else {
                (k + 6) as u64
            }
        },
    }
}

/// One mixing step of the position key: exclusive-or, then multiply by
/// the Fowler-Noll-Vo prime, truncated to 64 bits.
pub open spec fn spec_key_step(h: u64, code: u64) -> u64 {
    (((h ^ code) * 0x100000001b3u64) as u64)
}

/// The key after mixing in the squares with index below `i`.
pub open spec fn spec_key_upto(b: BoardModel, i: int) -> u64
    decreases i,
{
    if i <= 0 {
        0xcbf29ce484222325u64
    } else {
        spec_key_step(spec_key_upto(b, i - 1), spec_square_code(b.squares[i - 1]))
    }
}

/// The position key: every square mixed in board order, then the side to
/// move. Distinct positions may collide; the cache accepts that hazard.
pub open spec fn spec_position_key(b: BoardModel) -> u64 {
    spec_key_step(
        spec_key_upto(b, 64),
        if b.current_turn == Color::White {
            21u64
        } else {
            22u64
        },
    )
}

/// Computes the position key of a board.
pub fn get_position_key(board: &Board) -> (key: u64)
    requires
        board@.wf(),
    ensures
        key == spec_position_key(board@),
{
    let mut h: u64 = 0xcbf29ce484222325;
    let mut i: usize = 0;
    while i < 64
        invariant
            board@.wf(),
            i <= 64,
            h == spec_key_upto(board@, i as int),
        decreases 64 - i,
    {
        let code: u64 = match board.squares[i] {
            None => 0,
            Some(p) => {
                let k: u64 = match p.piece_type {
                    PieceType::Pawn => 1,
                    PieceType::Knight => 2,
                    PieceType::Bishop => 3,
                    PieceType::Rook => 4,
                    PieceType::Queen => 5,
                    PieceType::King => 6,
                };
                if p.color == Color::White {
                    k
                } else {
                    k + 6
                }
            },
        };
        h = mix(h, code);
        i = i + 1;
    }
    let turn_code: u64 = if board.current_turn() == Color::White {
        21
    } else {
        22
    };
    mix(h, turn_code)
}

/// One mixing step, computed in 128 bits and truncated.
fn mix(h: u64, code: u64) -> (r: u64)
    ensures
        r == spec_key_step(h, code),
{
    let x: u64 = h ^ code;
    #[verifier::truncate]
    let r: u64 = ((x as u128) * 0x100000001b3u128) as u64;
    r
}

/// The transposition table: a map from position keys to entries. All
/// entries hold scores within the mate bound.
pub struct TranspositionTable {
    pub map: HashMap<u64, TTEntry>,
}

impl TranspositionTable {
    /// The mathematical contents of the table.
    pub open spec fn contents(self) -> Map<u64, TTEntry> {
        self.map@
    }

    /// Every stored score lies within the mate bound.
    pub open spec fn wf(self) -> bool {
        forall|k: u64| self.contents().contains_key(k) ==> spec_entry_ok(#[trigger] self.contents()[k])
    }

    pub fn new() -> (r: TranspositionTable)
        ensures
            r.contents() == Map::<u64, TTEntry>::empty(),
            r.wf(),
    {
        TranspositionTable { map: HashMap::new() }
    }

    pub fn len(&self) -> (r: usize)
        ensures
            r == self.contents().len(),
    {
        self.map.len()
    }

    /// Drops every entry; the coarse eviction used when the table grows
    /// past its ceiling.
    pub fn clear(&mut self)
        ensures
            final(self).contents() == Map::<u64, TTEntry>::empty(),
            final(self).wf(),
    {
        self.map.clear()
    }

    /// Stores an entry, overwriting whatever the key held.
    pub fn store(&mut self, key: u64, entry: TTEntry)
        requires
            old(self).wf(),
            spec_entry_ok(entry),
        ensures
            final(self).contents() == old(self).contents().insert(key, entry),
            final(self).wf(),
    {
        self.map.insert(key, entry);
        proof {
            assert forall|k: u64| self.contents().contains_key(k) implies spec_entry_ok(
                #[trigger] self.contents()[k],
            ) by {
                if k != key {
                    assert(old(self).contents().contains_key(k));
                    assert(self.contents()[k] == old(self).contents()[k]);
                }
            }
        }
    }

    /// Looks a key up, returning the entry stored there, if any.
    pub fn lookup(&self, key: u64) -> (r: Option<TTEntry>)
        requires
            self.wf(),
        ensures
            r == (if self.contents().contains_key(key) {
                Some(self.contents()[key])
            } else {
                None::<TTEntry>
            }),
            r is Some ==> spec_entry_ok(r->0),
    {
        match self.map.get(&key) {
            Some(e) => {
                proof {
                    assert(self.contents().contains_key(key));
                    assert(spec_entry_ok(self.contents()[key]));
                }
                Some(*e)
            },
            None => None,
        }
    }
}

/// A cached mate score shifted by the probing node's depth, so that a
/// mate found deeper in the tree is preferred later from nearer the root.
pub open spec fn spec_adjust_mate(score: int, depth: int) -> int {
    if score > 19000 {
        score - depth
    } else if score < -19000 {
        score + depth
    } else {
        score
    }
}

/// Shifts a cached mate score by the probing depth.
pub fn adjust_mate_score(score: i32, depth: u8) -> (r: i32)
    requires
        -20000 <= score <= 20000,
    ensures
        r as int == spec_adjust_mate(score as int, depth as int),
        -20000 <= r <= 20000,
{
    if score > 19000 {
        if score - (depth as i32) < -20000 {
            -20000
        } else {
            score - (depth as i32)
        }
    } else if score < -19000 {
        if score + (depth as i32) > 20000 {
            20000
        } else {
            score + (depth as i32)
        }
    } else {
        score
    }
}

/// What a probe of an exact entry yields: when the key holds an exact
/// entry searched at least as deep as the probing node, the stored score
/// with its mate shift.
pub open spec fn spec_exact_probe(m: Map<u64, TTEntry>, key: u64, depth: u8) -> Option<int> {
    if m.contains_key(key) && m[key].depth >= depth && m[key].entry_type == EntryType::Exact {
        Some(spec_adjust_mate(m[key].score as int, depth as int))
    } else {
        None
    }
}

/// Cache round trip: storing an exact entry found at depth `d` and
/// probing the same key at any depth up to `d` yields the stored score
/// unchanged but for the mate shift.
pub proof fn lemma_cache_round_trip(m: Map<u64, TTEntry>, key: u64, entry: TTEntry, depth: u8)
    requires
        entry.entry_type == EntryType::Exact,
        depth <= entry.depth,
    ensures
        spec_exact_probe(m.insert(key, entry), key, depth) == Some(
            spec_adjust_mate(entry.score as int, depth as int),
        ),
{
}

} // verus!
