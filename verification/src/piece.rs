use vstd::prelude::*;

verus! {

/// One of the two markers that the players drop into the grid.
#[derive(Copy, Clone, PartialEq, Eq, Debug, Structural)]
pub enum Piece {
    /// The marker of the player who moves first.
    X,
    /// The marker of the player who moves second.
    O,
}

impl Piece {
    /// The opponent's marker, as a mathematical function.
    pub open spec fn other(self) -> Piece {
        match self {
            Piece::X => Piece::O,
            Piece::O => Piece::X,
        }
    }

    /// The character that stands for this marker when a grid is drawn.
    pub open spec fn glyph(self) -> char {
        match self {
            Piece::X => 'X',
            Piece::O => 'O',
        }
    }

    /// The character that stands for this marker when a grid is drawn.
    pub fn char(&self) -> (c: char)
        ensures
            c == self.glyph(),
    {
        match self {
            Piece::X => 'X',
            Piece::O => 'O',
        }
    }
}

/// `!piece` is the opponent's marker. Verified callers write `piece.not()`.
impl std::ops::Not for Piece {
    type Output = Piece;

    fn not(self) -> (p: Piece) {
        match self {
            Piece::X => Piece::O,
            Piece::O => Piece::X,
        }
    }
}

impl vstd::std_specs::ops::NotSpecImpl for Piece {
    open spec fn obeys_not_spec() -> bool {
        true
    }

    open spec fn not_req(self) -> bool {
        true
    }

    open spec fn not_spec(self) -> Piece {
        self.other()
    }
}

/// The opponent of the opponent is the player itself, and never the same player.
pub proof fn lemma_other_involution(p: Piece)
    ensures
        p.other().other() == p,
        p.other() != p,
{
}

} // verus!
