//! A rule-driven solitaire card engine.
//!
//! The engine models a board of piles with per-pile movement rules and a
//! selection/drop state machine that moves runs of cards between piles
//! under those rules. Game variants plug in through a small registry;
//! FreeCell is the reference variant.
use vstd::prelude::*;

pub mod board;
pub mod cards;
pub mod games;

use crate::games::{FreeCell, Game, GameLogicKind};

verus! {

/// The game variants this crate ships; the set is fixed at build time.
#[derive(PartialEq, Eq, Structural, Copy, Clone, Debug)]
pub enum GameVariant {
    FreeCell,
}

/// A registry entry: a variant's display name and which variant a fresh
/// game should be bound to.
pub struct GameEntry {
    pub name: &'static str,
    pub variant: GameVariant,
}

impl GameEntry {
    /// A fresh, not-yet-set-up game bound to this entry's variant.
    pub fn create(&self) -> (g: Game)
        ensures
            g@.board.len() == 0,
            g@.selection is None,
            g.wf(),
    {
        match self.variant {
            GameVariant::FreeCell => Game::create_with_logic(
                GameLogicKind::FreeCell(FreeCell::default()),
            ),
        }
    }
}

/// The read-only registry of available game variants, consumed once at
/// startup to choose which variant to instantiate.
pub fn get_game_entries() -> (r: Vec<GameEntry>)
    ensures
        r@.len() == 1,
        r@[0].variant == GameVariant::FreeCell,
        r@[0].name@ == "FreeCell"@,
{
    let mut entries: Vec<GameEntry> = Vec::new();
    entries.push(GameEntry { name: "FreeCell", variant: GameVariant::FreeCell });
    proof {
        reveal_strlit("FreeCell");
    }
    entries
}

/// Adds two numbers; kept as the crate's smoke-test entry point.
pub fn add(left: usize, right: usize) -> (r: usize)
    requires
        left + right <= usize::MAX,
    ensures
        r == left + right,
{
    left + right
}

} // verus!
