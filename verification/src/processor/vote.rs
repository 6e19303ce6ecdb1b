//! A vote that the transactor has dropped off.
use crate::address::Address;
use crate::error::{Failure, ProcessError};
use crate::processor::misc::AccountView;
use crate::processor::serve::is_serving;
use crate::state::game::{GameState, ServerJoin, Vote};
use crate::types::{VoteParams, VoteType};
use vstd::prelude::*;

verus! {

/// How long, in epochs, a game stays locked once enough votes are in.
pub const UNLOCK_DELAY: u64 = 10_000;

/// Why a vote is not taken, if it is not: the voter has not signed, nobody serves the
/// game, the voter is not the transactor or votes on itself, the votee serves the
/// game, a vote of players is cast, which is yet to be built, or the time to unlock
/// cannot be told.
pub open spec fn vote_refusal(
    voter: AccountView,
    votee: Address,
    game_state: GameState,
    params: VoteParams,
    epoch: u64,
) -> Option<Failure> {
    if !voter.is_signer {
        Some(Failure::MissingRequiredSignature)
    } else {
        match game_state.transactor_addr {
            None => Some(Failure::Process(ProcessError::GameNotServed)),
            Some(transactor) => if voter.key@ != transactor@ || votee@ == voter.key@ {
                Some(Failure::Process(ProcessError::InvalidVoteeAccount))
            } else {
                match params.vote_type {
                    VoteType::ClientVoteTransactorDropOff => Some(
                        Failure::Process(ProcessError::Unimplemented),
                    ),
                    VoteType::ServerVoteTransactorDropOff => if is_serving(
                        game_state.servers@,
                        votee@,
                    ) {
                        Some(Failure::Process(ProcessError::InvalidVoteeAccount))
                    } else if epoch + UNLOCK_DELAY > u64::MAX {
                        Some(Failure::Process(ProcessError::StakeAmountOverflow))
                    } else {
                        None
                    },
                }
            },
        }
    }
}

/// Whether one of the servers has the address.
fn find_votee(servers: &Vec<ServerJoin>, addr: &Address) -> (r: bool)
    ensures
        r == is_serving(servers@, addr@),
{
    let n: usize = servers.len();
    let mut i: usize = 0;
    while i < n
        invariant
            i <= n,
            n == servers@.len(),
            forall|j: int| 0 <= j < i ==> servers@[j].addr@ != addr@,
        decreases n - i,
    {
        if servers[i].addr.eq(addr) {
            return true;
        }
        i += 1;
    }
    false
}

/// Takes a vote at the epoch `epoch`. The vote is added to the votes of the game.
/// Once the votes are as many as half the servers, the game unlocks `UNLOCK_DELAY`
/// epochs later. Where the vote is not taken, nothing is changed.
pub fn process(
    voter: &AccountView,
    votee: &Address,
    game_state: &mut GameState,
    params: &VoteParams,
    epoch: u64,
) -> (r: Result<(), Failure>)
    ensures
        match vote_refusal(*voter, *votee, *old(game_state), *params, epoch) {
            Some(e) => r == Err::<(), Failure>(e) && *final(game_state) == *old(game_state),
            None => {
                &&& r is Ok
                &&& final(game_state).votes@ == old(game_state).votes@.push(
                    Vote { voter: voter.key, votee: *votee, vote_type: params.vote_type },
                )
                &&& final(game_state).unlock_time == if old(game_state).votes@.len() + 1 >= old(
                    game_state,
                ).servers@.len() / 2 {
                    Some((epoch + UNLOCK_DELAY) as u64)
                } else {
                    old(game_state).unlock_time
                }
                &&& (GameState {
                    votes: old(game_state).votes,
                    unlock_time: old(game_state).unlock_time,
                    ..*final(game_state)
                }) == *old(game_state)
            },
        },
{
    if !voter.is_signer {
        return Err(Failure::MissingRequiredSignature);
    }
    let transactor: Address = match game_state.transactor_addr {
        None => {
            return Err(Failure::Process(ProcessError::GameNotServed));
        },
        Some(transactor) => transactor,
    };
    if !voter.key.eq(&transactor) || votee.eq(&voter.key) {
        return Err(Failure::Process(ProcessError::InvalidVoteeAccount));
    }
    match params.vote_type {
        VoteType::ClientVoteTransactorDropOff => {
            return Err(Failure::Process(ProcessError::Unimplemented));
        },
        VoteType::ServerVoteTransactorDropOff => {},
    }
    if find_votee(&game_state.servers, votee) {
        return Err(Failure::Process(ProcessError::InvalidVoteeAccount));
    }
    if epoch > u64::MAX - UNLOCK_DELAY {
        return Err(Failure::Process(ProcessError::StakeAmountOverflow));
    }
    game_state.votes.push(Vote { voter: voter.key, votee: *votee, vote_type: params.vote_type });
    if game_state.votes.len() >= game_state.servers.len() / 2 {
        game_state.unlock_time = Some(epoch + UNLOCK_DELAY);
    }
    Ok(())
}

} // verus!
