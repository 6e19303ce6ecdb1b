//! Creation of a player's profile.
use crate::address::{all_zero, Address};
use crate::error::{Failure, ProcessError};
use crate::processor::misc::{create_with_seed, seed_refusal, seeded_address, AccountView};
use crate::state::profile::PlayerState;
use crate::types::CreatePlayerProfileParams;
use vstd::prelude::*;

verus! {

/// The layout version that new profiles are written in.
pub const PROFILE_VERSION: u8 = 2;

/// Why a profile is not created, if it is not: no address can be derived for it, the
/// owner has not signed, the account may not be changed, it holds less than
/// `min_balance`, or it is not the account derived from the owner and the seed.
pub open spec fn profile_refusal(
    program_id: Address,
    owner: AccountView,
    profile: AccountView,
    seed: Seq<char>,
    min_balance: u64,
) -> Option<Failure> {
    match seeded_address(owner.key@, seed, program_id@) {
        Err(e) => Some(e),
        Ok(address) => if !owner.is_signer {
            Some(Failure::MissingRequiredSignature)
        } else if !profile.is_writable {
            Some(Failure::Process(ProcessError::InvalidAccountStatus))
        } else if profile.lamports < min_balance {
            Some(Failure::AccountNotRentExempt)
        } else if address != profile.key@ {
            Some(Failure::Process(ProcessError::InvalidAccountPubkey))
        } else {
            None
        },
    }
}

/// Creates the profile of a player. The picture is the account `pfp_key`, unless that
/// is the zero address, which stands for no picture.
pub fn process(
    program_id: &Address,
    owner: &AccountView,
    profile: &AccountView,
    pfp_key: &Address,
    params: CreatePlayerProfileParams,
    seed: &str,
    min_balance: u64,
) -> (r: Result<PlayerState, Failure>)
    ensures
        match profile_refusal(*program_id, *owner, *profile, seed@, min_balance) {
            Some(e) => r == Err::<PlayerState, Failure>(e),
            None => {
                &&& r is Ok
                &&& r->Ok_0.version == PROFILE_VERSION
                &&& r->Ok_0.nick == params.nick
                &&& r->Ok_0.credentials == params.credentials
                &&& r->Ok_0.pfp == if all_zero(pfp_key@) {
                    None::<Address>
                } else {
                    Some(*pfp_key)
                }
            },
        },
        match seed_refusal(seed@, program_id@) {
            Some(e) => r == Err::<PlayerState, Failure>(e),
            None => seeded_address(owner.key@, seed@, program_id@) is Ok,
        },
{
    let address: Address = match create_with_seed(&owner.key, seed, program_id) {
        Err(e) => {
            return Err(e);
        },
        Ok(address) => address,
    };
    if !owner.is_signer {
        return Err(Failure::MissingRequiredSignature);
    }
    if !profile.is_writable {
        return Err(Failure::Process(ProcessError::InvalidAccountStatus));
    }
    if profile.lamports < min_balance {
        return Err(Failure::AccountNotRentExempt);
    }
    if !address.eq(&profile.key) {
        return Err(Failure::Process(ProcessError::InvalidAccountPubkey));
    }
    let pfp: Option<Address> = if pfp_key.is_zero() {
        None
    } else {
        Some(*pfp_key)
    };
    Ok(
        PlayerState {
            version: PROFILE_VERSION,
            nick: params.nick,
            pfp,
            credentials: params.credentials,
        },
    )
}

} // verus!
