//! The fixed group of players a game can be played by.

use vstd::prelude::*;

verus! {

/// A player of the regular group. The set is closed: games are only ever
/// played by these seven.
#[derive(Debug, Clone, Copy, PartialEq, Eq, Hash, Structural)]
pub enum Player {
    Mikael,
    Steve,
    Matt,
    Nick,
    Cathy,
    Kasia,
    Darren,
}

impl Player {
    /// The player's given name.
    pub open spec fn spec_name(self) -> Seq<char> {
        match self {
            Player::Mikael => "Mikael"@,
            Player::Steve => "Steve"@,
            Player::Matt => "Matt"@,
            Player::Nick => "Nick"@,
            Player::Cathy => "Cathy"@,
            Player::Kasia => "Kasia"@,
            Player::Darren => "Darren"@,
        }
    }

    /// The player's nickname, used on score displays.
    pub open spec fn spec_fun_name(self) -> Seq<char> {
        match self {
            Player::Mikael => "Hans"@,
            Player::Steve => "Javelin"@,
            Player::Matt => "Cliff"@,
            Player::Nick => "Fat Nick"@,
            Player::Cathy => "French"@,
            Player::Kasia => "Kasia"@,
            Player::Darren => "Darren"@,
        }
    }

    /// A small distinct number for each player, used as a lookup key.
    pub open spec fn spec_id(self) -> int {
        match self {
            Player::Mikael => 0,
            Player::Steve => 1,
            Player::Matt => 2,
            Player::Nick => 3,
            Player::Cathy => 4,
            Player::Kasia => 5,
            Player::Darren => 6,
        }
    }

    pub fn name(&self) -> (r: &'static str)
        ensures
            r@ == self.spec_name(),
    {
        match self {
            Player::Mikael => "Mikael",
            Player::Steve => "Steve",
            Player::Matt => "Matt",
            Player::Nick => "Nick",
            Player::Cathy => "Cathy",
            Player::Kasia => "Kasia",
            Player::Darren => "Darren",
        }
    }

    pub fn fun_name(&self) -> (r: &'static str)
        ensures
            r@ == self.spec_fun_name(),
    {
        match self {
            Player::Mikael => "Hans",
            Player::Steve => "Javelin",
            Player::Matt => "Cliff",
            Player::Nick => "Fat Nick",
            Player::Cathy => "French",
            Player::Kasia => "Kasia",
            Player::Darren => "Darren",
        }
    }

    pub fn id(&self) -> (r: u8)
        ensures
            r as int == self.spec_id(),
    {
        match self {
            Player::Mikael => 0,
            Player::Steve => 1,
            Player::Matt => 2,
            Player::Nick => 3,
            Player::Cathy => 4,
            Player::Kasia => 5,
            Player::Darren => 6,
        }
    }
}

/// Two distinct players never share an id.
pub proof fn lemma_player_id_injective(a: Player, b: Player)
    ensures
        a.spec_id() == b.spec_id() ==> a == b,
{
}

} // verus!
