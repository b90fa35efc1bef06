//! The player's economy counters.
use vstd::prelude::*;

verus! {

/// Score, remaining lives and gold. Gold is spent on turret placements and
/// never goes negative: the placement handler refuses a turret the player
/// cannot afford.
pub struct GameData {
    pub score: i32,
    pub lives: i32,
    pub gold: i32,
}

impl Default for GameData {
    /// A fresh game: no score, ten lives, 500 gold.
    fn default() -> (r: GameData)
        ensures
            r.score == 0,
            r.lives == 10,
            r.gold == 500,
    {
        GameData { score: 0, lives: 10, gold: 500 }
    }
}

} // verus!
