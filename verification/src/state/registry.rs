use crate::address::Address;
use vstd::prelude::*;

verus! {

/// A game as the lobby lists it.
#[derive(Debug, Clone, PartialEq, Eq)]
pub struct GameReg {
    pub title: String,
    pub addr: Address,
    pub bundle_addr: Address,
    pub reg_time: u64,
}

/// A lobby: the games registered with it.
#[derive(Debug, Clone, PartialEq, Eq)]
pub struct RegistryState {
    pub is_initialized: bool,
    pub is_private: bool,
    /// How many games the lobby can list.
    pub size: u16,
    pub owner: Address,
    pub games: Vec<GameReg>,
}

impl RegistryState {
    /// Whether the account has been set up.
    pub fn is_initialized(&self) -> (r: bool)
        ensures
            r == self.is_initialized,
    {
        self.is_initialized
    }
}

} // verus!
