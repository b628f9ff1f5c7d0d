//! The record of what the player has done over all rounds.
//!
//! Reading the record from where it is kept, and writing it back, is left
//! to the caller; here is what happens to the numbers.

use vstd::prelude::*;

verus! {

/// The version of the record that this library writes.
pub const STATS_VERSION: u32 = 1;

/// What the player has done so far.
#[derive(Clone, Copy, PartialEq, Eq, Structural, Debug)]
pub struct Stats {
    pub version: u32,
    /// Mines defused.
    pub defused: usize,
    /// Safe tiles uncovered.
    pub revealed: usize,
    /// Rounds lost to a mine.
    pub exploded: usize,
}

/// The record of a player who has not played yet. Its version is 0, so
/// the first round starts the counting.
pub open spec fn fresh() -> Stats {
    Stats { version: 0, defused: 0, revealed: 0, exploded: 0 }
}

/// The record to go on from: what was read, or a fresh one where nothing
/// could be read.
pub open spec fn record_or_fresh(loaded: Option<Stats>) -> Stats {
    match loaded {
        Some(stats) => stats,
        None => fresh(),
    }
}

/// The record brought to the current version: one of another version
/// starts from zero.
pub open spec fn current(data: Stats) -> Stats {
    if data.version != STATS_VERSION {
        Stats { version: 1, defused: 0, revealed: 0, exploded: 0 }
    } else {
        data
    }
}

/// The record after one more round.
pub open spec fn with_round(data: Stats, defused: usize, revealed: usize, exploded: bool) -> Stats {
    Stats {
        version: current(data).version,
        defused: (current(data).defused + defused) as usize,
        revealed: (current(data).revealed + revealed) as usize,
        exploded: (current(data).exploded + if exploded {
            1int
        } else {
            0int
        }) as usize,
    }
}

/// The numbers of one more round still fit in the record.
pub open spec fn round_fits(data: Stats, defused: usize, revealed: usize, exploded: bool) -> bool {
    &&& current(data).defused + defused <= usize::MAX
    &&& current(data).revealed + revealed <= usize::MAX
    &&& exploded ==> current(data).exploded + 1 <= usize::MAX
}

/// Returns the record of a player who has not played yet.
pub fn fresh_stats() -> (stats: Stats)
    ensures
        stats == fresh(),
{
    Stats { version: 0, defused: 0, revealed: 0, exploded: 0 }
}

/// Chooses the record to go on from: a record that is missing or cannot
/// be read counts as a fresh one.
pub fn stats_or_fresh(loaded: Option<Stats>) -> (stats: Stats)
    ensures
        stats == record_or_fresh(loaded),
{
    match loaded {
        Some(stats) => stats,
        None => fresh_stats(),
    }
}

/// Adds the numbers of a round to the record. A record of another version
/// is started anew first.
pub fn add_round(data: Stats, defused: usize, revealed: usize, exploded: bool) -> (stats: Stats)
    requires
        round_fits(data, defused, revealed, exploded),
    ensures
        stats == with_round(data, defused, revealed, exploded),
{
    let mut data = data;
    if data.version != STATS_VERSION {
        data.version = 1;
        data.defused = 0;
        data.revealed = 0;
        data.exploded = 0;
    }
    data.defused += defused;
    data.revealed += revealed;
    if exploded {
        data.exploded += 1;
    }
    data
}

/// Adds the numbers of a round to the record, unless they no longer fit:
/// then there is no new record.
pub fn try_add_round(data: Stats, defused: usize, revealed: usize, exploded: bool) -> (stats:
    Option<Stats>)
    ensures
        round_fits(data, defused, revealed, exploded) ==> stats == Some(
            with_round(data, defused, revealed, exploded),
        ),
        !round_fits(data, defused, revealed, exploded) ==> stats.is_none(),
{
    let base = if data.version != STATS_VERSION {
        Stats { version: 1, defused: 0, revealed: 0, exploded: 0 }
    } else {
        data
    };
    if defused > usize::MAX - base.defused || revealed > usize::MAX - base.revealed || (exploded
        && base.exploded == usize::MAX) {
        None
    } else {
        Some(add_round(data, defused, revealed, exploded))
    }
}

} // verus!
