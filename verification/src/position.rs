//! Squares of the chess board, addressed by file and rank, each in 1..=8.

use vstd::prelude::*;

verus! {

/// A square of the board. `file` is the column (a-h as 1-8), `rank` the row.
#[derive(Debug, Clone, Copy, PartialEq, Eq, Structural)]
pub struct Position {
    pub rank: u8,
    pub file: u8,
}

/// A position is on the board when both coordinates lie in 1..=8.
pub open spec fn pos_valid(p: Position) -> bool {
    1 <= p.file <= 8 && 1 <= p.rank <= 8
}

impl Position {
    /// Builds a position, refusing coordinates off the board.
    pub fn new(file: u8, rank: u8) -> (r: Option<Position>)
        ensures
            r is Some <==> (1 <= file <= 8 && 1 <= rank <= 8),
            r is Some ==> r->0 == (Position { file, rank }) && pos_valid(r->0),
    {
        if 1 <= file && file <= 8 && 1 <= rank && rank <= 8 {
            Some(Position { file, rank })
        } else {
            None
        }
    }

    /// Parses algebraic notation such as "e4": a file letter a-h then a rank digit 1-8.
    pub fn from_algebraic(notation: &str) -> (r: Option<Position>)
        ensures
            r is Some <==> (notation@.len() == 2 && 'a' <= notation@[0] <= 'h' && '1'
                <= notation@[1] <= '8'),
            r is Some ==> r->0 == (Position {
                file: (notation@[0] as u8 - 'a' as u8 + 1) as u8,
                rank: (notation@[1] as u8 - '0' as u8) as u8,
            }) && pos_valid(r->0),
    {
        if notation.unicode_len() != 2 {
            return None;
        }
        let file = notation.get_char(0);
        let rank = notation.get_char(1);
        if !('a' <= file && file <= 'h') || !('1' <= rank && rank <= '8') {
            return None;
        }
        let file_u = file as u8;
        let rank_u = rank as u8;
        Some(Position { file: file_u - 97 + 1, rank: rank_u - 48 })
    }
}

} // verus!
