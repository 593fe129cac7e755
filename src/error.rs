use vstd::prelude::*;

verus! {

/// Why a match could not be set up.
#[derive(Clone, Copy, Debug, PartialEq, Eq, Structural)]
pub enum UnoError {
    /// Fewer than two players.
    NotEnoughPlayers,
    /// More than ten players.
    TooManyPlayers,
}

} // verus!
