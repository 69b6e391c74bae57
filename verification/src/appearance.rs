//! What a cell of the arena looks like to a bot.

use vstd::prelude::*;

verus! {

/// What a bot sees when it looks at a cell.
#[derive(Copy, Clone, PartialEq, Eq, Structural, Debug)]
pub enum Appearance {
    Floor,
    Bot,
    Block,
    Abyss,
}

} // verus!
