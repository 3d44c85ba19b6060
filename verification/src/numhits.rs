//! The number of hits a round can score, with the delta each count is
//! worth against a given target number.

use vstd::prelude::*;

use crate::spec_delta;

verus! {

/// How many of a round's three darts hit the target.
#[derive(Debug, Clone, Copy, PartialEq, Eq, PartialOrd, Ord, Hash, Structural)]
pub enum NumHits {
    Zero,
    One,
    Two,
    Three,
}

impl NumHits {
    /// The count as a number.
    pub open spec fn spec_count(self) -> int {
        match self {
            NumHits::Zero => 0,
            NumHits::One => 1,
            NumHits::Two => 2,
            NumHits::Three => 3,
        }
    }

    /// The score change this hit count is worth against `target`:
    /// `-2 * target` for no hits, `+2 * target * hits` otherwise.
    pub fn value(&self, target: i8) -> (r: i8)
        requires
            1 <= target <= 20,
        ensures
            r as int == spec_delta(target as int, self.spec_count()),
    {
        let base: i8 = 2 * target;
        match self {
            NumHits::Zero => -base,
            NumHits::One => base,
            NumHits::Two => base + base,
            NumHits::Three => base + base + base,
        }
    }

    /// The count as a machine number.
    pub fn count(&self) -> (r: u8)
        ensures
            r as int == self.spec_count(),
    {
        match self {
            NumHits::Zero => 0,
            NumHits::One => 1,
            NumHits::Two => 2,
            NumHits::Three => 3,
        }
    }

    /// The hit count a machine number names, if any.
    pub fn from_count(h: u8) -> (r: Option<NumHits>)
        ensures
            h <= 3 ==> (r matches Some(n) && n.spec_count() == h as int),
            h > 3 ==> r is None,
    {
        match h {
            0 => Some(NumHits::Zero),
            1 => Some(NumHits::One),
            2 => Some(NumHits::Two),
            3 => Some(NumHits::Three),
            _ => None,
        }
    }
}

impl Default for NumHits {
    /// Before any dart lands, a round has no hits.
    fn default() -> (r: NumHits)
        ensures
            r == NumHits::Zero,
    {
        NumHits::Zero
    }
}

} // verus!
