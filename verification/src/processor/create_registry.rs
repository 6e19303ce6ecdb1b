//! Creation of a lobby.
use crate::error::Failure;
use crate::processor::misc::AccountView;
use crate::state::registry::RegistryState;
use crate::types::CreateRegistrationParams;
use vstd::prelude::*;

verus! {

/// Creates a lobby that the payer owns. The payer has to have signed.
pub fn process(payer: &AccountView, params: &CreateRegistrationParams) -> (r: Result<
    RegistryState,
    Failure,
>)
    ensures
        match r {
            Ok(state) => {
                &&& payer.is_signer
                &&& state.is_initialized
                &&& state.is_private == params.is_private
                &&& state.size == params.size
                &&& state.owner == payer.key
                &&& state.games@.len() == 0
            },
            Err(e) => !payer.is_signer && e == Failure::MissingRequiredSignature,
        },
{
    if !payer.is_signer {
        return Err(Failure::MissingRequiredSignature);
    }
    Ok(
        RegistryState {
            is_initialized: true,
            is_private: params.is_private,
            size: params.size,
            owner: payer.key,
            games: Vec::new(),
        },
    )
}

} // verus!
