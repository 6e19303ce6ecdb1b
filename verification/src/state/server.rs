use crate::address::Address;
use vstd::prelude::*;

verus! {

/// The profile of a server.
#[derive(Debug, Clone, PartialEq, Eq)]
pub struct ServerState {
    pub is_initialized: bool,
    pub addr: Address,
    pub owner: Address,
    pub endpoint: String,
}

impl ServerState {
    /// Whether the account has been set up.
    pub fn is_initialized(&self) -> (r: bool)
        ensures
            r == self.is_initialized,
    {
        self.is_initialized
    }
}

} // verus!
