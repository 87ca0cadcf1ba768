//! What is configured before a round starts.

use vstd::prelude::*;

verus! {

/// The fewest players a round can have.
pub const MIN_PLAYERS: u8 = 1;

/// The most players a round can have.
pub const MAX_PLAYERS: u8 = 6;

/// The number of players of a round without further configuration.
pub const DEFAULT_PLAYERS: u8 = 2;

/// A number of players that a round can have.
pub open spec fn valid_player_count(n: int) -> bool {
    MIN_PLAYERS <= n <= MAX_PLAYERS
}

/// The settings of the game.
#[derive(Clone, Copy, Debug)]
pub struct GameSettings {
    number_of_players: u8,
}

impl View for GameSettings {
    type V = int;

    closed spec fn view(&self) -> int {
        self.number_of_players as int
    }
}

impl Default for GameSettings {
    fn default() -> (settings: GameSettings)
        ensures
            settings@ == DEFAULT_PLAYERS,
    {
        GameSettings { number_of_players: DEFAULT_PLAYERS }
    }
}

impl GameSettings {
    #[verifier::type_invariant]
    spec fn inv(self) -> bool {
        valid_player_count(self@)
    }

    /// Settings for `number_of_players` players, or nothing when a round
    /// cannot have that many.
    pub fn new(number_of_players: u8) -> (out: Option<GameSettings>)
        ensures
            out.is_some() <==> valid_player_count(number_of_players as int),
            out matches Some(s) ==> s@ == number_of_players,
    {
        if number_of_players < MIN_PLAYERS || number_of_players > MAX_PLAYERS {
            None
        } else {
            Some(GameSettings { number_of_players })
        }
    }

    /// The number of players of the next round.
    pub fn number_of_players(&self) -> (n: u8)
        ensures
            n == self@,
            valid_player_count(n as int),
    {
        proof {
            use_type_invariant(self);
        }
        self.number_of_players
    }

    /// Sets the number of players of the next round. A number that a round
    /// cannot have is rejected, and the settings stay as they are.
    pub fn set_number_of_players(&mut self, number_of_players: u8) -> (accepted: bool)
        ensures
            accepted == valid_player_count(number_of_players as int),
            final(self)@ == if accepted {
                number_of_players as int
            } else {
                old(self)@
            },
    {
        if number_of_players < MIN_PLAYERS || number_of_players > MAX_PLAYERS {
            false
        } else {
            self.number_of_players = number_of_players;
            true
        }
    }

    /// One player more, unless the round is full.
    pub fn increase(&mut self) -> (accepted: bool)
        ensures
            accepted == (old(self)@ < MAX_PLAYERS),
            final(self)@ == if accepted {
                old(self)@ + 1
            } else {
                old(self)@
            },
    {
        proof {
            use_type_invariant(&*self);
        }
        let n = self.number_of_players;
        if n >= MAX_PLAYERS {
            false
        } else {
            self.number_of_players = n + 1;
            true
        }
    }

    /// One player fewer, unless only one is left.
    pub fn decrease(&mut self) -> (accepted: bool)
        ensures
            accepted == (old(self)@ > MIN_PLAYERS),
            final(self)@ == if accepted {
                old(self)@ - 1
            } else {
                old(self)@
            },
    {
        proof {
            use_type_invariant(&*self);
        }
        let n = self.number_of_players;
        if n <= MIN_PLAYERS {
            false
        } else {
            self.number_of_players = n - 1;
            true
        }
    }
}

} // verus!
