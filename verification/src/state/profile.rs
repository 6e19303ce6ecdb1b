use crate::address::Address;
use vstd::prelude::*;

verus! {

/// The profile of a player in the layout that came first.
#[derive(Debug, Clone, PartialEq, Eq)]
pub struct LegacyPlayerState {
    pub is_initialized: bool,
    pub nick: String,
    pub pfp: Option<Address>,
}

impl LegacyPlayerState {
    /// Whether the account has been set up.
    pub fn is_initialized(&self) -> (r: bool)
        ensures
            r == self.is_initialized,
    {
        self.is_initialized
    }
}

/// The profile of a player.
#[derive(Debug, Clone, PartialEq, Eq)]
pub struct PlayerState {
    /// The layout version; zero on an account that has not been set up.
    pub version: u8,
    pub nick: String,
    pub pfp: Option<Address>,
    pub credentials: Vec<u8>,
}

impl PlayerState {
    /// Whether the account has been set up.
    pub fn is_initialized(&self) -> (r: bool)
        ensures
            r == (self.version > 0),
    {
        self.version > 0
    }
}

} // verus!
