use vstd::prelude::*;

verus! {

/// A move a player can submit to a match.
#[derive(Debug, Clone, Copy, PartialEq, Eq, Structural)]
pub enum PlayerMove {
    /// Give the match up: the other side wins at once.
    Concede,
    /// Place a vertical wall anchored at `(row, col)`.
    QuoridorWallV { row: usize, col: usize },
    /// Place a horizontal wall anchored at `(row, col)`.
    QuoridorWallH { row: usize, col: usize },
    /// Move the acting player's token to `(row, col)`.
    QuoridorMove { row: usize, col: usize },
}

/// The outcome of a submitted move.
#[derive(Debug, Clone, Copy, PartialEq, Eq, Structural)]
pub enum PlayerMoveResult {
    /// The move was legal and has been applied.
    Accepted,
    /// The acting player is not the one to move.
    WrongTurn,
    /// The move or wall breaks a rule of the game.
    Disallowed,
    /// The match is over (or has just been ended by a concession).
    GameFinished,
    /// The match is unknown, or the player is not part of it.
    NotFound,
}

impl PlayerMoveResult {
    /// Whether the move was applied.
    pub fn is_ok(&self) -> (r: bool)
        ensures
            r == (*self == PlayerMoveResult::Accepted),
    {
        matches!(self, PlayerMoveResult::Accepted)
    }
}

/// `String::push` appends the character to the end of the string.
pub assume_specification[ String::push ](s: &mut String, ch: char)
    ensures
        final(s)@ == old(s)@.push(ch),
;

/// The texts of a list of strings.
pub open spec fn texts_of(lines: Seq<String>) -> Seq<Seq<char>> {
    lines.map_values(|line: String| line@)
}

/// Whether two strings hold the same text.
pub fn same_text(a: &str, b: &str) -> (same: bool)
    ensures
        same == (a@ == b@),
{
    a.to_owned() == b.to_owned()
}

} // verus!
