//! The time manager: turns a remaining-time budget and an estimate of the
//! moves still to play into a per-move allocation, and answers whether
//! the search should go on. The clock is polled, never blocking.

use vstd::prelude::*;

verus! {

/// The least time spent on one move, in milliseconds.
pub const MIN_TIME_PER_MOVE_MS: u64 = 100;

/// The most time spent on one move, in milliseconds.
pub const MAX_TIME_PER_MOVE_MS: u64 = 15000;

/// Safety margin kept from the allocation, in milliseconds.
pub const TIME_BUFFER_MS: u64 = 50;

/// The assumed number of moves left when the caller gives none.
pub const MOVES_TO_GO: u32 = 40;

/// Relies on std::time::SystemTime: milliseconds since the Unix epoch,
/// read from the system clock. Nothing is promised of the value: it
/// depends on the clock alone, and the logic that uses it takes it as an
/// argument.
#[verifier::external_body]
fn now_millis() -> u64 {
    match std::time::SystemTime::now().duration_since(std::time::UNIX_EPOCH) {
        Ok(d) => d.as_millis() as u64,
        Err(_) => 0,
    }
}

/// The allocation the manager computes: the budget spread over the moves
/// still to go, clamped between the least and most per move. An estimate
/// of zero moves to go yields the maximum.
pub open spec fn spec_allocation(total_ms: int, moves_left: Option<u32>) -> int {
    let mtg: int = match moves_left {
        Some(n) => n as int,
        None => 40,
    };
    if mtg == 0 {
        15000
    } else {
        let base = total_ms / mtg;
        if base < 100 {
            100int
        } else if base > 15000 {
            15000int
        } else {
            base
        }
    }
}

/// Reads the clock, for the search's cooperative deadline polling.
pub(crate) fn current_millis() -> u64 {
    now_millis()
}

/// Tracks when the search started and how long it may run.
pub struct TimeManager {
    pub start_ms: u64,
    pub allocated_ms: u64,
}

impl TimeManager {
    /// Starts the clock for one move, allocating `clamp(total / moves_to_go)`
    /// milliseconds.
    pub fn new(total_time_ms: u64, moves_left: Option<u32>) -> (r: TimeManager)
        ensures
            r.allocated_ms as int == spec_allocation(total_time_ms as int, moves_left),
            100 <= r.allocated_ms <= 15000,
    {
        let moves_to_go: u32 = match moves_left {
            Some(n) => n,
            None => MOVES_TO_GO,
        };
        let allocated: u64 = if moves_to_go == 0 {
            MAX_TIME_PER_MOVE_MS
        } else {
            let base = total_time_ms / (moves_to_go as u64);
            if base < MIN_TIME_PER_MOVE_MS {
                MIN_TIME_PER_MOVE_MS
            } else if base > MAX_TIME_PER_MOVE_MS {
                MAX_TIME_PER_MOVE_MS
            } else {
                base
            }
        };
        TimeManager { start_ms: now_millis(), allocated_ms: allocated }
    }

    /// Milliseconds elapsed at clock reading `now_ms`; zero if the clock
    /// ran backwards.
    pub fn elapsed_at(&self, now_ms: u64) -> (r: u64)
        ensures
            r as int == (if now_ms >= self.start_ms {
                now_ms - self.start_ms
            } else {
                0int
            }),
    {
        if now_ms >= self.start_ms {
            now_ms - self.start_ms
        } else {
            0
        }
    }

    /// Milliseconds spent so far, by the clock.
    pub fn elapsed(&self) -> u64 {
        self.elapsed_at(now_millis())
    }

    /// Whether, at clock reading `now_ms`, the elapsed time plus the
    /// safety buffer still lies within the allocation.
    pub fn should_continue_at(&self, now_ms: u64) -> (r: bool)
        ensures
            r == ((if now_ms >= self.start_ms {
                now_ms - self.start_ms
            } else {
                0int
            }) + 50 < self.allocated_ms),
    {
        let elapsed = self.elapsed_at(now_ms);
        elapsed <= u64::MAX - TIME_BUFFER_MS && elapsed + TIME_BUFFER_MS < self.allocated_ms
    }

    /// Whether the search should go on, by the clock.
    pub fn should_continue(&self) -> bool {
        self.should_continue_at(now_millis())
    }

    /// The clock deadline after which the search should wind down.
    pub fn deadline_ms(&self) -> (r: u64)
        ensures
            r as int == (if self.start_ms + self.allocated_ms <= u64::MAX {
                self.start_ms + self.allocated_ms
            } else {
                u64::MAX as int
            }),
    {
        if self.start_ms <= u64::MAX - self.allocated_ms {
            self.start_ms + self.allocated_ms
        } else {
            u64::MAX
        }
    }
}

} // verus!
