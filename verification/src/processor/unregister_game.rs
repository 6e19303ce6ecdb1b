//! Taking a game off a lobby.
use crate::address::Address;
use crate::error::{Failure, ProcessError};
use crate::processor::misc::AccountView;
use crate::processor::register_game::{find_game, is_listed};
use crate::state::game::{GameState, GameStatus};
use crate::state::registry::{GameReg, RegistryState};
use vstd::prelude::*;

verus! {

/// Why a game is not taken off, if it is not: the payer has not signed, the lobby is
/// private and another's, the game exists and is not set up or is another's, or the
/// lobby does not list it. A game whose account is empty is taken off unchecked.
pub open spec fn unregister_refusal(
    payer: AccountView,
    registry_state: RegistryState,
    game_key: Address,
    game_state: Option<GameState>,
) -> Option<Failure> {
    if !payer.is_signer {
        Some(Failure::MissingRequiredSignature)
    } else if registry_state.is_private && registry_state.owner@ != payer.key@ {
        Some(Failure::Process(ProcessError::InvalidOwner))
    } else if game_state is Some && game_state->Some_0.game_status != GameStatus::Initialized {
        Some(Failure::UninitializedAccount)
    } else if game_state is Some && game_state->Some_0.owner@ != payer.key@ {
        Some(Failure::Process(ProcessError::InvalidOwner))
    } else if !is_listed(registry_state.games@, game_key@) {
        Some(Failure::Process(ProcessError::InvalidUnregistration))
    } else {
        None
    }
}

/// Whether entry `index` is the first entry at the address.
pub open spec fn is_first_listing(games: Seq<GameReg>, addr: Seq<u8>, index: int) -> bool {
    &&& 0 <= index < games.len()
    &&& games[index].addr@ == addr
    &&& forall|j: int| 0 <= j < index ==> games[j].addr@ != addr
}

/// Takes a game off a lobby: the first entry at the address of the game is removed.
/// `game_state` is the ledger of the game where its account holds one. Where the game
/// is not taken off, nothing is changed.
pub fn process(
    payer: &AccountView,
    registry_state: &mut RegistryState,
    game_key: &Address,
    game_state: Option<&GameState>,
) -> (r: Result<(), Failure>)
    ensures
        match unregister_refusal(
            *payer,
            *old(registry_state),
            *game_key,
            match game_state {
                Some(state) => Some(*state),
                None => None,
            },
        ) {
            Some(e) => r == Err::<(), Failure>(e) && *final(registry_state) == *old(registry_state),
            None => {
                &&& r is Ok
                &&& exists|i: int|
                    is_first_listing(old(registry_state).games@, game_key@, i)
                        && final(registry_state).games@ == old(registry_state).games@.remove(i)
                &&& (RegistryState { games: old(registry_state).games, ..*final(registry_state) })
                    == *old(registry_state)
            },
        },
{
    if !payer.is_signer {
        return Err(Failure::MissingRequiredSignature);
    }
    if registry_state.is_private && !registry_state.owner.eq(&payer.key) {
        return Err(Failure::Process(ProcessError::InvalidOwner));
    }
    match game_state {
        Some(state) => {
            if !state.is_initialized() {
                return Err(Failure::UninitializedAccount);
            }
            if !state.owner.eq(&payer.key) {
                return Err(Failure::Process(ProcessError::InvalidOwner));
            }
        },
        None => {},
    }
    match find_game(&registry_state.games, game_key) {
        None => Err(Failure::Process(ProcessError::InvalidUnregistration)),
        Some(i) => {
            assert(is_first_listing(registry_state.games@, game_key@, i as int));
            registry_state.games.remove(i);
            Ok(())
        },
    }
}

} // verus!
