//! Listing a game in a lobby.
use crate::address::Address;
use crate::error::{Failure, ProcessError};
use crate::processor::misc::AccountView;
use crate::state::game::{GameState, GameStatus};
use crate::state::registry::{GameReg, RegistryState};
use vstd::prelude::*;

verus! {

/// Whether the lobby lists a game at the address.
pub open spec fn is_listed(games: Seq<GameReg>, addr: Seq<u8>) -> bool {
    exists|i: int| 0 <= i < games.len() && games[i].addr@ == addr
}

/// Why a game is not listed, if it is not: the payer has not signed, the lobby is not
/// set up, it is private and another's, it is full, the game is not set up or is
/// another's, or the lobby lists it already.
pub open spec fn register_refusal(
    payer: AccountView,
    registry_state: RegistryState,
    game_key: Address,
    game_state: GameState,
) -> Option<Failure> {
    if !payer.is_signer {
        Some(Failure::MissingRequiredSignature)
    } else if !registry_state.is_initialized {
        Some(Failure::UninitializedAccount)
    } else if registry_state.is_private && registry_state.owner@ != payer.key@ {
        Some(Failure::Process(ProcessError::InvalidOwner))
    } else if registry_state.games@.len() >= registry_state.size {
        Some(Failure::Process(ProcessError::RegistrationIsFull))
    } else if game_state.game_status != GameStatus::Initialized {
        Some(Failure::UninitializedAccount)
    } else if game_state.owner@ != payer.key@ {
        Some(Failure::Process(ProcessError::InvalidOwner))
    } else if is_listed(registry_state.games@, game_key@) {
        Some(Failure::Process(ProcessError::GameAlreadyRegistered))
    } else {
        None
    }
}

/// The index of the first game listed at the address.
pub fn find_game(games: &Vec<GameReg>, addr: &Address) -> (r: Option<usize>)
    ensures
        match r {
            Some(i) => {
                &&& i < games@.len()
                &&& games@[i as int].addr@ == addr@
                &&& forall|j: int| 0 <= j < i ==> games@[j].addr@ != addr@
            },
            None => !is_listed(games@, addr@),
        },
{
    let n: usize = games.len();
    let mut i: usize = 0;
    while i < n
        invariant
            i <= n,
            n == games@.len(),
            forall|j: int| 0 <= j < i ==> games@[j].addr@ != addr@,
        decreases n - i,
    {
        if games[i].addr.eq(addr) {
            return Some(i);
        }
        i += 1;
    }
    None
}

/// Lists a game in a lobby at the time `reg_time`. Where the game is not listed,
/// nothing is changed.
pub fn process(
    payer: &AccountView,
    registry_state: &mut RegistryState,
    game_key: &Address,
    game_state: &GameState,
    reg_time: u64,
) -> (r: Result<(), Failure>)
    ensures
        match register_refusal(*payer, *old(registry_state), *game_key, *game_state) {
            Some(e) => r == Err::<(), Failure>(e) && *final(registry_state) == *old(registry_state),
            None => {
                &&& r is Ok
                &&& final(registry_state).games@ == old(registry_state).games@.push(
                    GameReg {
                        title: game_state.title,
                        addr: *game_key,
                        bundle_addr: game_state.bundle_addr,
                        reg_time,
                    },
                )
                &&& (RegistryState { games: old(registry_state).games, ..*final(registry_state) })
                    == *old(registry_state)
            },
        },
{
    if !payer.is_signer {
        return Err(Failure::MissingRequiredSignature);
    }
    if !registry_state.is_initialized {
        return Err(Failure::UninitializedAccount);
    }
    if registry_state.is_private && !registry_state.owner.eq(&payer.key) {
        return Err(Failure::Process(ProcessError::InvalidOwner));
    }
    if registry_state.games.len() >= registry_state.size as usize {
        return Err(Failure::Process(ProcessError::RegistrationIsFull));
    }
    if !game_state.is_initialized() {
        return Err(Failure::UninitializedAccount);
    }
    if !game_state.owner.eq(&payer.key) {
        return Err(Failure::Process(ProcessError::InvalidOwner));
    }
    match find_game(&registry_state.games, game_key) {
        Some(_) => {
            return Err(Failure::Process(ProcessError::GameAlreadyRegistered));
        },
        None => {},
    }
    registry_state.games.push(
        GameReg {
            title: game_state.title.clone(),
            addr: *game_key,
            bundle_addr: game_state.bundle_addr,
            reg_time,
        },
    );
    Ok(())
}

} // verus!
