use vstd::prelude::*;

verus! {

/// One of the two sides of a game.
#[derive(Clone, Copy, PartialEq, Eq, Debug, Structural)]
pub enum Player {
    Human,
    Computer,
}

impl Player {
    pub open spec fn spec_other(self) -> Player {
        match self {
            Player::Human => Player::Computer,
            Player::Computer => Player::Human,
        }
    }

    /// The glyph a board cell of this player is drawn with.
    pub fn piece(&self) -> (r: char)
        ensures
            r == (match *self {
                Player::Human => '\u{1F534}',
                Player::Computer => '\u{1F7E1}',
            }),
    {
        match self {
            Player::Human => '\u{1F534}',
            Player::Computer => '\u{1F7E1}',
        }
    }

    /// The opponent of this player.
    pub fn other(&self) -> (r: Player)
        ensures
            r == self.spec_other(),
    {
        match self {
            Player::Human => Player::Computer,
            Player::Computer => Player::Human,
        }
    }
}

} // verus!
