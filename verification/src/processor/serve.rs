//! A server joins a game. The first server to join becomes the transactor.
use crate::address::Address;
use crate::error::{Failure, ProcessError};
use crate::processor::misc::AccountView;
use crate::state::game::{GameState, GameStatus, ServerJoin};
use crate::state::server::ServerState;
use vstd::prelude::*;

verus! {

/// The number of servers a game takes.
pub const MAX_SERVER_NUM: usize = 10;

/// Whether one of the servers has the address.
pub open spec fn is_serving(servers: Seq<ServerJoin>, addr: Seq<u8>) -> bool {
    exists|i: int| 0 <= i < servers.len() && servers[i].addr@ == addr
}

/// Why a server cannot join a game, if it cannot: the payer has not signed, the game
/// may not be changed or is not set up, the server has no profile, it serves the game
/// already, the game has all the servers it takes, or the access version has no room
/// to grow.
pub open spec fn serve_refusal(
    payer: AccountView,
    game: AccountView,
    server_account: AccountView,
    server_state: ServerState,
    game_state: GameState,
) -> Option<Failure> {
    if !payer.is_signer {
        Some(Failure::MissingRequiredSignature)
    } else if !game.is_writable {
        Some(Failure::Process(ProcessError::InvalidAccountStatus))
    } else if game_state.game_status != GameStatus::Initialized {
        Some(Failure::UninitializedAccount)
    } else if !server_state.is_initialized {
        Some(Failure::Process(ProcessError::ServerAccountNotAvailable))
    } else if is_serving(game_state.servers@, server_account.key@) {
        Some(Failure::Process(ProcessError::DuplicateServerJoin))
    } else if game_state.servers@.len() == MAX_SERVER_NUM {
        Some(Failure::Process(ProcessError::ServerNumberExceedsLimit))
    } else if game_state.access_version == u64::MAX {
        Some(Failure::Process(ProcessError::StakeAmountOverflow))
    } else {
        None
    }
}

/// Whether one of the servers has the address.
fn find_server(servers: &Vec<ServerJoin>, addr: &Address) -> (r: bool)
    ensures
        r == is_serving(servers@, addr@),
{
    let n: usize = servers.len();
    let mut i: usize = 0;
    while i < n
        invariant
            i <= n,
            n == servers@.len(),
            forall|j: int| 0 <= j < i ==> servers@[j].addr@ != addr@,
        decreases n - i,
    {
        if servers[i].addr.eq(addr) {
            return true;
        }
        i += 1;
    }
    false
}

/// Lets a server join a game. The server is listed under the address of the payer
/// with the endpoint of its profile and the access version, which grows by one. A
/// game that nobody serves takes the payer as its transactor. Where the server
/// cannot join, nothing is changed.
pub fn process(
    payer: &AccountView,
    game: &AccountView,
    server_account: &AccountView,
    server_state: &ServerState,
    game_state: &mut GameState,
) -> (r: Result<(), Failure>)
    ensures
        match serve_refusal(*payer, *game, *server_account, *server_state, *old(game_state)) {
            Some(e) => r == Err::<(), Failure>(e) && *final(game_state) == *old(game_state),
            None => {
                &&& r is Ok
                &&& final(game_state).access_version == old(game_state).access_version + 1
                &&& final(game_state).servers@ == old(game_state).servers@.push(
                    ServerJoin {
                        addr: payer.key,
                        endpoint: server_state.endpoint,
                        access_version: final(game_state).access_version,
                    },
                )
                &&& final(game_state).transactor_addr == if old(game_state).transactor_addr is None
                    || old(game_state).servers@.len() == 0 {
                    Some(payer.key)
                } else {
                    old(game_state).transactor_addr
                }
                &&& (GameState {
                    access_version: old(game_state).access_version,
                    servers: old(game_state).servers,
                    transactor_addr: old(game_state).transactor_addr,
                    ..*final(game_state)
                }) == *old(game_state)
            },
        },
{
    if !payer.is_signer {
        return Err(Failure::MissingRequiredSignature);
    }
    if !game.is_writable {
        return Err(Failure::Process(ProcessError::InvalidAccountStatus));
    }
    if !game_state.is_initialized() {
        return Err(Failure::UninitializedAccount);
    }
    if !server_state.is_initialized {
        return Err(Failure::Process(ProcessError::ServerAccountNotAvailable));
    }
    if find_server(&game_state.servers, &server_account.key) {
        return Err(Failure::Process(ProcessError::DuplicateServerJoin));
    }
    if game_state.servers.len() == MAX_SERVER_NUM {
        return Err(Failure::Process(ProcessError::ServerNumberExceedsLimit));
    }
    if game_state.access_version == u64::MAX {
        return Err(Failure::Process(ProcessError::StakeAmountOverflow));
    }
    let access_version: u64 = game_state.access_version + 1;
    let nobody_serves: bool = match game_state.transactor_addr {
        None => true,
        Some(_) => game_state.servers.len() == 0,
    };
    if nobody_serves {
        game_state.transactor_addr = Some(payer.key);
    }
    game_state.servers.push(
        ServerJoin { addr: payer.key, endpoint: server_state.endpoint.clone(), access_version },
    );
    game_state.access_version = access_version;
    Ok(())
}

} // verus!
