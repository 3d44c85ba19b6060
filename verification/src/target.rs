//! The board model: sections a dart can land on, and hit matching.

use vstd::prelude::*;

verus! {

/// One of the four concentric bands of a numbered segment.
#[derive(Debug, Clone, Copy, PartialEq, Eq, Structural)]
pub enum Ring {
    SingleInner,
    Treble,
    SingleOuter,
    Double,
}

/// A specific, bounded section of the board: a numbered segment within one
/// ring, or the bull. Only segments 1 through 20 exist on a board.
#[derive(Debug, Clone, Copy, PartialEq, Eq, Structural)]
pub enum BoardSection {
    /// Segment number and ring.
    Number(u8, Ring),
    /// The bull; `true` for the inner bull.
    Bull(bool),
}

/// The four paint colours of a board.
#[derive(Debug, Clone, Copy, PartialEq, Eq, Structural)]
pub enum Colour {
    Black,
    White,
    Green,
    Red,
}

impl BoardSection {
    /// A section names an actual spot on a board when its segment number is
    /// in range.
    pub open spec fn spec_valid(self) -> bool {
        match self {
            BoardSection::Number(n, _) => 1 <= n <= 20,
            BoardSection::Bull(_) => true,
        }
    }

    pub open spec fn spec_colour(self) -> Colour {
        match self {
            BoardSection::Number(n, s) => match (n % 2 == 0, s) {
                (true, Ring::SingleInner) | (true, Ring::SingleOuter) => Colour::Black,
                (true, _) => Colour::Red,
                (false, Ring::SingleInner) | (false, Ring::SingleOuter) => Colour::White,
                (false, _) => Colour::Green,
            },
            BoardSection::Bull(true) => Colour::Red,
            BoardSection::Bull(false) => Colour::Green,
        }
    }

    /// The colour the section is painted.
    pub fn colour(&self) -> (r: Colour)
        ensures
            r == self.spec_colour(),
    {
        match self {
            BoardSection::Number(n, s) => match (n % 2 == 0, s) {
                (true, Ring::SingleInner) | (true, Ring::SingleOuter) => Colour::Black,
                (true, Ring::Treble) | (true, Ring::Double) => Colour::Red,
                (false, Ring::SingleInner) | (false, Ring::SingleOuter) => Colour::White,
                (false, Ring::Treble) | (false, Ring::Double) => Colour::Green,
            },
            BoardSection::Bull(true) => Colour::Red,
            BoardSection::Bull(false) => Colour::Green,
        }
    }

    /// The ring of a numbered section, if any.
    pub fn ring(&self) -> (r: Option<Ring>)
        ensures
            r == match self {
                BoardSection::Number(_, ring) => Some(*ring),
                _ => None::<Ring>,
            },
    {
        match self {
            BoardSection::Number(_, ring) => Some(*ring),
            _ => None,
        }
    }

    /// The segment number of a numbered section, if any.
    pub fn number(&self) -> (r: Option<u8>)
        ensures
            r == match self {
                BoardSection::Number(n, _) => Some(*n),
                _ => None::<u8>,
            },
    {
        match self {
            BoardSection::Number(n, _) => Some(*n),
            _ => None,
        }
    }
}

/// The designated target of round `round`: the double ring of the segment
/// numbered like the round.
pub open spec fn spec_round_target(round: int) -> BoardSection {
    BoardSection::Number(round as u8, Ring::Double)
}

/// A throw counts as a hit exactly when the thrown section equals the target.
pub open spec fn spec_is_hit(target: BoardSection, thrown: BoardSection) -> bool {
    target == thrown
}

/// The target of the given round.
pub fn round_target(round: u8) -> (r: BoardSection)
    requires
        1 <= round <= 20,
    ensures
        r == spec_round_target(round as int),
        r.spec_valid(),
{
    BoardSection::Number(round, Ring::Double)
}

} // verus!
