//! The state of a single tile and the three player actions on it.

use vstd::prelude::*;

verus! {

/// The state of one cell of the board.
///
/// `Marked` and `Question` carry a signed payload: a negative value stands for
/// a flagged mine, a non-negative value is the neighbour count of the safe
/// tile under the flag.
#[derive(Clone, Copy, PartialEq, Eq, Structural, Debug)]
pub enum TileState {
    /// A mine nobody has touched.
    Mine,
    /// A mine that went off.
    Explosion,
    /// A tile with a defuser on it.
    Marked(i16),
    /// A safe tile that is still covered.
    HiddenEmpty(u8),
    /// A safe tile that has been uncovered; it stays so.
    VisibleEmpty(u8),
    /// A tile the player suspects.
    Question(i16),
}

/// What a player action did.
#[derive(Clone, Copy, PartialEq, Eq, Structural, Debug)]
pub enum MoveResult {
    Explosion,
    SafeMove,
    MakesNoSense,
    AlreadyRevealed,
}

impl TileState {
    /// Neighbour counts are at most 8; a flag holds -1 for a mine or a count.
    pub open spec fn is_valid(self) -> bool {
        match self {
            TileState::Mine => true,
            TileState::Explosion => true,
            TileState::Marked(n) => -1 <= n <= 8,
            TileState::HiddenEmpty(n) => n <= 8,
            TileState::VisibleEmpty(n) => n <= 8,
            TileState::Question(n) => -1 <= n <= 8,
        }
    }

    /// The tile hides a mine: untouched, flagged, or already gone off.
    pub open spec fn holds_mine(self) -> bool {
        match self {
            TileState::Mine => true,
            TileState::Explosion => true,
            TileState::Marked(n) => n < 0,
            TileState::Question(n) => n < 0,
            _ => false,
        }
    }

    /// The tile is safe and still covered, possibly under a flag.
    pub open spec fn is_covered_safe(self) -> bool {
        match self {
            TileState::HiddenEmpty(_) => true,
            TileState::Marked(n) => n >= 0,
            TileState::Question(n) => n >= 0,
            _ => false,
        }
    }

    /// The tile has been uncovered.
    pub open spec fn is_visible(self) -> bool {
        self is VisibleEmpty
    }

    /// The tile is a flagged mine under a defuser.
    pub open spec fn is_defused_mine(self) -> bool {
        self matches TileState::Marked(n) && n < 0
    }

    /// The tile after a forced reveal: a covered safe tile is uncovered with
    /// its count, an untouched mine goes off, everything else stays.
    pub open spec fn opened(self) -> TileState {
        match self {
            TileState::Mine => TileState::Explosion,
            TileState::HiddenEmpty(n) => TileState::VisibleEmpty(n),
            TileState::Marked(n) => if n < 0 {
                self
            } else {
                TileState::VisibleEmpty(n as u8)
            },
            TileState::Question(n) => if n < 0 {
                self
            } else {
                TileState::VisibleEmpty(n as u8)
            },
            _ => self,
        }
    }

    /// The tile is covered, safe and has no mine around it: uncovering it
    /// carries on to its neighbours.
    pub open spec fn spreads(self) -> bool {
        match self {
            TileState::HiddenEmpty(n) => n == 0,
            TileState::Marked(n) => n == 0,
            TileState::Question(n) => n == 0,
            _ => false,
        }
    }

    /// A reveal without force leaves a tile under a defuser alone.
    pub open spec fn resists_reveal(self, force: bool) -> bool {
        self is Marked && !force
    }

    /// What a reveal of this tile reports.
    pub open spec fn reveal_outcome(self, force: bool) -> MoveResult {
        match self {
            TileState::Mine => MoveResult::Explosion,
            TileState::Explosion => MoveResult::Explosion,
            TileState::Marked(n) => if !force || n < 0 {
                MoveResult::MakesNoSense
            } else {
                MoveResult::SafeMove
            },
            TileState::HiddenEmpty(_) => MoveResult::SafeMove,
            TileState::VisibleEmpty(_) => MoveResult::AlreadyRevealed,
            TileState::Question(n) => if n < 0 {
                MoveResult::Explosion
            } else {
                MoveResult::SafeMove
            },
        }
    }

    /// The tile after the defuser is toggled on it.
    pub open spec fn defused(self) -> TileState {
        match self {
            TileState::Mine => TileState::Marked(-1i16),
            TileState::Explosion => TileState::Explosion,
            TileState::Marked(n) => if n < 0 {
                TileState::Mine
            } else {
                TileState::HiddenEmpty(n as u8)
            },
            TileState::HiddenEmpty(n) => TileState::Marked(n as i16),
            TileState::VisibleEmpty(_) => self,
            TileState::Question(n) => TileState::Marked(n),
        }
    }

    /// The tile after the suspicion mark is toggled on it.
    pub open spec fn marked(self) -> TileState {
        match self {
            TileState::Mine => TileState::Question(-1i16),
            TileState::Explosion => TileState::Explosion,
            TileState::Marked(n) => TileState::Question(n),
            TileState::HiddenEmpty(n) => TileState::Question(n as i16),
            TileState::VisibleEmpty(_) => self,
            TileState::Question(n) => if n < 0 {
                TileState::Mine
            } else {
                TileState::HiddenEmpty(n as u8)
            },
        }
    }

    /// What toggling a defuser or a mark on this tile reports.
    pub open spec fn toggle_outcome(self) -> MoveResult {
        if self is VisibleEmpty {
            MoveResult::AlreadyRevealed
        } else {
            MoveResult::SafeMove
        }
    }

    /// Uncovers the tile as a forced reveal does.
    pub fn open(self) -> (r: TileState)
        requires
            self.is_valid(),
        ensures
            r == self.opened(),
            r.is_valid(),
    {
        match self {
            TileState::Mine => TileState::Explosion,
            TileState::HiddenEmpty(n) => TileState::VisibleEmpty(n),
            TileState::Marked(n) => if n < 0 {
                self
            } else {
                TileState::VisibleEmpty(n as u8)
            },
            TileState::Question(n) => if n < 0 {
                self
            } else {
                TileState::VisibleEmpty(n as u8)
            },
            _ => self,
        }
    }

    /// Tells whether uncovering the tile carries on to its neighbours.
    pub fn is_spreading(self) -> (r: bool)
        ensures
            r == self.spreads(),
    {
        match self {
            TileState::HiddenEmpty(n) => n == 0,
            TileState::Marked(n) => n == 0,
            TileState::Question(n) => n == 0,
            _ => false,
        }
    }

    /// Toggles the defuser on the tile.
    pub fn toggle_defuser(self) -> (r: TileState)
        requires
            self.is_valid(),
        ensures
            r == self.defused(),
            r.is_valid(),
    {
        match self {
            TileState::Mine => TileState::Marked(-1),
            TileState::Explosion => TileState::Explosion,
            TileState::Marked(n) => if n < 0 {
                TileState::Mine
            } else {
                TileState::HiddenEmpty(n as u8)
            },
            TileState::HiddenEmpty(n) => TileState::Marked(n as i16),
            TileState::VisibleEmpty(_) => self,
            TileState::Question(n) => TileState::Marked(n),
        }
    }

    /// Toggles the suspicion mark on the tile.
    pub fn toggle_mark(self) -> (r: TileState)
        requires
            self.is_valid(),
        ensures
            r == self.marked(),
            r.is_valid(),
    {
        match self {
            TileState::Mine => TileState::Question(-1),
            TileState::Explosion => TileState::Explosion,
            TileState::Marked(n) => TileState::Question(n),
            TileState::HiddenEmpty(n) => TileState::Question(n as i16),
            TileState::VisibleEmpty(_) => self,
            TileState::Question(n) => if n < 0 {
                TileState::Mine
            } else {
                TileState::HiddenEmpty(n as u8)
            },
        }
    }
}

/// Toggling the defuser twice gives the tile back, unless a suspicion mark
/// was on it: the first toggle replaces that mark for good.
pub proof fn lemma_defuse_twice_restores(tile: TileState)
    requires
        tile.is_valid(),
        !(tile is Question),
    ensures
        tile.defused().defused() == tile,
{
}

/// Toggling the suspicion mark twice gives the tile back, for every tile
/// that is neither visible nor under a defuser.
pub proof fn lemma_mark_twice_restores(tile: TileState)
    requires
        tile.is_valid(),
        !(tile is VisibleEmpty),
        !(tile is Marked),
    ensures
        tile.marked().marked() == tile,
{
}

/// No action changes what lies under a tile: a mine stays a mine, a safe
/// tile stays safe.
pub proof fn lemma_actions_keep_mines(tile: TileState)
    ensures
        tile.opened().holds_mine() == tile.holds_mine(),
        tile.defused().holds_mine() == tile.holds_mine(),
        tile.marked().holds_mine() == tile.holds_mine(),
{
}

} // verus!
